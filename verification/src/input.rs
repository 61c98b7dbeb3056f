//! Player intents and their translation into update-log events.
//!
//! `process_into_updates` never mutates the arena: it reads the folded
//! state and produces the events the intent is worth. Invalid intents
//! (double start, turning before the countdown, turning a dead or unknown
//! vehicle, reversing) produce no events at all.

use vstd::prelude::*;

use crate::arena::{
    players_model, Arena, ArenaModel, ARENA_START_TIMER_MILLISECONDS, NOW_LIMIT,
};
use crate::assoc::{al_contains, al_find, al_get, lemma_al_index_of};
use crate::entities::{Lightcycle, Lightribbon, LIGHTCYCLE_SPEED};
use crate::primitives::{opposite, Direction, Player, PlayerId, PlayerModel, Point};
use crate::rng::GameRng;
use crate::updates::{updates_view, ArenaUpdate, UpdateModel};
use crate::util::{
    ai_players_spec, ai_quantity_spec, calculate_spawnpoints, players_view, select_ai_from_pool,
    select_ai_quantity, spawnpoints_spec,
};

verus! {

/// A player intent: start a round, or turn the own vehicle.
#[derive(Debug, Clone, Copy, PartialEq, Eq, Hash, Structural)]
pub enum ArenaInput {
    Start,
    Turn(Direction),
}

/// One more vehicle removal, one more event.
proof fn lemma_remove_cycle_step(s: Seq<(PlayerId, Lightcycle)>, i: int)
    requires
        0 <= i < s.len(),
    ensures
        remove_cycle_events(s.take(i + 1)) =~= remove_cycle_events(s.take(i)).push(
            UpdateModel::RemoveLightcycle(s[i].0),
        ),
{
    assert forall|j: int| 0 <= j < i + 1 implies (remove_cycle_events(s.take(i + 1)))[j] == (
    remove_cycle_events(s.take(i)).push(UpdateModel::RemoveLightcycle(s[i].0)))[j] by {
        assert(s.take(i + 1)[j] == s[j]);
        if j < i {
            assert(s.take(i)[j] == s[j]);
        }
    }
}

/// One more trail removal, one more event.
proof fn lemma_remove_ribbon_step(s: Seq<(PlayerId, Seq<Point>)>, i: int)
    requires
        0 <= i < s.len(),
    ensures
        remove_ribbon_events(s.take(i + 1)) =~= remove_ribbon_events(s.take(i)).push(
            UpdateModel::RemoveLightribbon(s[i].0),
        ),
{
    assert forall|j: int| 0 <= j < i + 1 implies (remove_ribbon_events(s.take(i + 1)))[j] == (
    remove_ribbon_events(s.take(i)).push(UpdateModel::RemoveLightribbon(s[i].0)))[j] by {
        assert(s.take(i + 1)[j] == s[j]);
        if j < i {
            assert(s.take(i)[j] == s[j]);
        }
    }
}

/// One more AI player, one more addition event.
proof fn lemma_add_player_step(ms: Seq<PlayerModel>, i: int)
    requires
        0 <= i < ms.len(),
    ensures
        add_player_events(ms.take(i + 1)) =~= add_player_events(ms.take(i)).push(
            UpdateModel::AddPlayer(ms[i].id, ms[i]),
        ),
{
    assert forall|j: int| 0 <= j < i + 1 implies (add_player_events(ms.take(i + 1)))[j] == (
    add_player_events(ms.take(i)).push(UpdateModel::AddPlayer(ms[i].id, ms[i])))[j] by {
        assert(ms.take(i + 1)[j] == ms[j]);
        if j < i {
            assert(ms.take(i)[j] == ms[j]);
        }
    }
}

/// One more registry entry, one more key.
proof fn lemma_keys_of_step(s: Seq<(PlayerId, PlayerModel)>, i: int)
    requires
        0 <= i < s.len(),
    ensures
        keys_of(s.take(i + 1)) =~= keys_of(s.take(i)).push(s[i].0),
{
    assert forall|j: int| 0 <= j < i + 1 implies (keys_of(s.take(i + 1)))[j] == (keys_of(
        s.take(i),
    ).push(s[i].0))[j] by {
        assert(s.take(i + 1)[j] == s[j]);
        if j < i {
            assert(s.take(i)[j] == s[j]);
        }
    }
}

/// One more player, one more id.
proof fn lemma_ids_of_step(ms: Seq<PlayerModel>, i: int)
    requires
        0 <= i < ms.len(),
    ensures
        ids_of(ms.take(i + 1)) =~= ids_of(ms.take(i)).push(ms[i].id),
{
    assert forall|j: int| 0 <= j < i + 1 implies (ids_of(ms.take(i + 1)))[j] == (ids_of(
        ms.take(i),
    ).push(ms[i].id))[j] by {
        assert(ms.take(i + 1)[j] == ms[j]);
        if j < i {
            assert(ms.take(i)[j] == ms[j]);
        }
    }
}

/// How many of the first `k` registered players are human.
pub open spec fn humans_upto(s: Seq<(PlayerId, PlayerModel)>, k: int) -> int
    decreases k,
{
    if k <= 0 {
        0
    } else {
        humans_upto(s, k - 1) + (if s[k - 1].1.is_ai {
            0int
        } else {
            1int
        })
    }
}

/// How many registered players are human (not AI-controlled).
pub open spec fn human_count(s: Seq<(PlayerId, PlayerModel)>) -> int {
    humans_upto(s, s.len() as int)
}

/// Removal events for every current vehicle, in registry order.
pub open spec fn remove_cycle_events(s: Seq<(PlayerId, Lightcycle)>) -> Seq<UpdateModel> {
    s.map_values(|e: (PlayerId, Lightcycle)| UpdateModel::RemoveLightcycle(e.0))
}

/// Removal events for every current trail, in registry order.
pub open spec fn remove_ribbon_events(s: Seq<(PlayerId, Seq<Point>)>) -> Seq<UpdateModel> {
    s.map_values(|e: (PlayerId, Seq<Point>)| UpdateModel::RemoveLightribbon(e.0))
}

/// Addition events for the AI players of a round.
pub open spec fn add_player_events(ms: Seq<PlayerModel>) -> Seq<UpdateModel> {
    ms.map_values(|m: PlayerModel| UpdateModel::AddPlayer(m.id, m))
}

/// The keys of a player registry, in order.
pub open spec fn keys_of(s: Seq<(PlayerId, PlayerModel)>) -> Seq<PlayerId> {
    s.map_values(|e: (PlayerId, PlayerModel)| e.0)
}

/// The ids of a sequence of players, in order.
pub open spec fn ids_of(ms: Seq<PlayerModel>) -> Seq<PlayerId> {
    ms.map_values(|m: PlayerModel| m.id)
}

/// For each spawn assignment: a fresh vehicle at the spawn point, and its
/// trail starting as a degenerate segment there.
pub open spec fn spawn_events(sp: Seq<(PlayerId, Point, Direction)>) -> Seq<UpdateModel>
    decreases sp.len(),
{
    if sp.len() == 0 {
        Seq::empty()
    } else {
        seq![
            UpdateModel::AddLightcycle(
                sp[0].0,
                Lightcycle {
                    position: sp[0].1,
                    direction: sp[0].2,
                    speed: LIGHTCYCLE_SPEED,
                    dead: false,
                },
            ),
            UpdateModel::AddLightribbon(sp[0].0, seq![sp[0].1, sp[0].1]),
        ] + spawn_events(sp.drop_first())
    }
}

/// The events a valid start produces: clear the winner, remove the old
/// vehicles and trails, add AI players when exactly one human is present,
/// spawn a vehicle and trail for every participant, and begin the
/// countdown.
pub open spec fn start_updates(a: ArenaModel, now: i64, rs: u64) -> (Seq<UpdateModel>, u64) {
    let q = ai_quantity_spec(human_count(a.players) == 1, rs);
    let ais = ai_players_spec(q.0, q.1);
    let ids = keys_of(a.players) + ids_of(ais.0);
    let spawns = spawnpoints_spec(ids, ais.1);
    (
        seq![UpdateModel::SetWinner(None)] + remove_cycle_events(a.lightcycles)
            + remove_ribbon_events(a.lightribbons) + add_player_events(ais.0) + spawn_events(
            spawns.0,
        ) + seq![UpdateModel::Start((now + ARENA_START_TIMER_MILLISECONDS) as i64)],
        spawns.1,
    )
}

/// The events a turn produces: nothing unless the round is running, the
/// vehicle exists and is alive, and the turn is not a reversal; otherwise
/// freeze the current trail segment and change direction.
pub open spec fn turn_updates(a: ArenaModel, pid: PlayerId, d: Direction, now: i64) -> Seq<
    UpdateModel,
> {
    if !al_contains(a.lightcycles, pid) {
        Seq::empty()
    } else {
        let lc = al_get(a.lightcycles, pid);
        match a.started {
            None => Seq::empty(),
            Some(started) => {
                if now < started {
                    Seq::empty()
                } else if lc.dead {
                    Seq::empty()
                } else if opposite(lc.direction, d) {
                    Seq::empty()
                } else {
                    seq![
                        UpdateModel::UpdateLightribbonAppendPoint(pid, lc.position),
                        UpdateModel::UpdateLightcycleDirection(pid, d),
                    ]
                }
            },
        }
    }
}

/// What an intent is worth: the events to append, and the generator state
/// after the draws the intent needed.
pub open spec fn input_updates_spec(
    input: ArenaInput,
    a: ArenaModel,
    pid: PlayerId,
    now: i64,
    rs: u64,
) -> (Seq<UpdateModel>, u64) {
    match input {
        ArenaInput::Start => if a.started is Some {
            (Seq::empty(), rs)
        } else {
            start_updates(a, now, rs)
        },
        ArenaInput::Turn(d) => (turn_updates(a, pid, d, now), rs),
    }
}

/// Removal events for the current vehicles.
fn removal_cycle_list(cycles: &Vec<(PlayerId, Lightcycle)>) -> (r: Vec<ArenaUpdate>)
    ensures
        updates_view(r@) == remove_cycle_events(cycles@),
{
    let mut out: Vec<ArenaUpdate> = Vec::new();
    let mut i: usize = 0;
    proof {
        assert(updates_view(out@) =~= remove_cycle_events(cycles@.take(0)));
    }
    while i < cycles.len()
        invariant
            i <= cycles@.len(),
            updates_view(out@) == remove_cycle_events(cycles@.take(i as int)),
        decreases cycles@.len() - i,
    {
        let ghost out0 = out@;
        out.push(ArenaUpdate::RemoveLightcycle(cycles[i].0));
        i = i + 1;
        proof {
            crate::updates::lemma_updates_view_push(
                out0,
                ArenaUpdate::RemoveLightcycle(cycles@[i - 1].0),
            );
            lemma_remove_cycle_step(cycles@, i - 1);
        }
    }
    proof {
        assert(cycles@.take(cycles@.len() as int) =~= cycles@);
    }
    out
}

/// Removal events for the current trails.
fn removal_ribbon_list(ribbons: &Vec<(PlayerId, Lightribbon)>) -> (r: Vec<ArenaUpdate>)
    ensures
        updates_view(r@) == remove_ribbon_events(crate::arena::ribbons_model(ribbons@)),
{
    let ghost target = crate::arena::ribbons_model(ribbons@);
    let mut out: Vec<ArenaUpdate> = Vec::new();
    let mut i: usize = 0;
    proof {
        assert(updates_view(out@) =~= remove_ribbon_events(target.take(0)));
    }
    while i < ribbons.len()
        invariant
            i <= ribbons@.len(),
            target == crate::arena::ribbons_model(ribbons@),
            target.len() == ribbons@.len(),
            updates_view(out@) == remove_ribbon_events(target.take(i as int)),
        decreases ribbons@.len() - i,
    {
        let ghost out0 = out@;
        out.push(ArenaUpdate::RemoveLightribbon(ribbons[i].0));
        i = i + 1;
        proof {
            assert(target[i - 1].0 == ribbons@[i - 1].0);
            crate::updates::lemma_updates_view_push(
                out0,
                ArenaUpdate::RemoveLightribbon(ribbons@[i - 1].0),
            );
            lemma_remove_ribbon_step(target, i - 1);
        }
    }
    proof {
        assert(target.take(target.len() as int) =~= target);
    }
    out
}

/// Addition events for the round's AI players.
fn ai_add_list(ais: &Vec<Player>) -> (r: Vec<ArenaUpdate>)
    ensures
        updates_view(r@) == add_player_events(players_view(ais@)),
{
    let ghost target = players_view(ais@);
    let mut out: Vec<ArenaUpdate> = Vec::new();
    let mut i: usize = 0;
    proof {
        assert(updates_view(out@) =~= add_player_events(target.take(0)));
    }
    while i < ais.len()
        invariant
            i <= ais@.len(),
            target == players_view(ais@),
            target.len() == ais@.len(),
            updates_view(out@) == add_player_events(target.take(i as int)),
        decreases ais@.len() - i,
    {
        let ghost out0 = out@;
        let p = ais[i].duplicate();
        let ghost pm = p@;
        let pid = p.id;
        out.push(ArenaUpdate::AddPlayer(pid, p));
        i = i + 1;
        proof {
            assert(target[i - 1] == ais@[i - 1]@);
            crate::updates::lemma_updates_view_push(out0, out@[out@.len() - 1]);
            assert(out@[out@.len() - 1]@ == UpdateModel::AddPlayer(target[i - 1].id, target[i - 1]));
            lemma_add_player_step(target, i - 1);
        }
    }
    proof {
        assert(target.take(target.len() as int) =~= target);
    }
    out
}

/// The participant ids of a round: the joined players, then the AI players.
fn collect_participants(players: &Vec<(PlayerId, Player)>, ais: &Vec<Player>) -> (r: Vec<PlayerId>)
    ensures
        r@ == keys_of(players_model(players@)) + ids_of(players_view(ais@)),
{
    let ghost ka = keys_of(players_model(players@));
    let ghost kb = ids_of(players_view(ais@));
    let mut out: Vec<PlayerId> = Vec::new();
    let mut i: usize = 0;
    while i < players.len()
        invariant
            i <= players@.len(),
            ka == keys_of(players_model(players@)),
            ka.len() == players@.len(),
            out@ == ka.take(i as int),
        decreases players@.len() - i,
    {
        out.push(players[i].0);
        i = i + 1;
        proof {
            assert(ka[i - 1] == players@[i - 1].0);
            lemma_keys_of_step(players_model(players@), i - 1);
            assert(out@ =~= ka.take(i as int));
        }
    }
    let mut j: usize = 0;
    while j < ais.len()
        invariant
            j <= ais@.len(),
            ka == keys_of(players_model(players@)),
            kb == ids_of(players_view(ais@)),
            kb.len() == ais@.len(),
            ka.len() == players@.len(),
            out@ == ka.take(ka.len() as int) + kb.take(j as int),
        decreases ais@.len() - j,
    {
        out.push(ais[j].id);
        j = j + 1;
        proof {
            assert(kb[j - 1] == ais@[j - 1]@.id);
            lemma_ids_of_step(players_view(ais@), j - 1);
            assert(out@ =~= ka.take(ka.len() as int) + kb.take(j as int));
        }
    }
    proof {
        assert(ka.take(ka.len() as int) =~= ka);
        assert(kb.take(kb.len() as int) =~= kb);
        assert(out@ =~= ka + kb);
    }
    out
}

/// Spawn events for the assigned participants.
fn spawn_event_list(spawns: &Vec<(PlayerId, Point, Direction)>) -> (r: Vec<ArenaUpdate>)
    ensures
        updates_view(r@) == spawn_events(spawns@),
{
    let mut out: Vec<ArenaUpdate> = Vec::new();
    let mut i: usize = 0;
    proof {
        assert(spawns@.skip(0) =~= spawns@);
        assert(updates_view(out@) + spawn_events(spawns@) =~= spawn_events(spawns@));
    }
    while i < spawns.len()
        invariant
            i <= spawns@.len(),
            spawn_events(spawns@) == updates_view(out@) + spawn_events(spawns@.skip(i as int)),
        decreases spawns@.len() - i,
    {
        let ghost pre = spawns@.skip(i as int);
        let ghost out0 = out@;
        let s = spawns[i];
        let mut seg: Vec<Point> = Vec::new();
        seg.push(s.1);
        seg.push(s.1);
        let cycle_ev = ArenaUpdate::AddLightcycle(
            s.0,
            Lightcycle { position: s.1, direction: s.2, speed: LIGHTCYCLE_SPEED, dead: false },
        );
        let ribbon_ev = ArenaUpdate::AddLightribbon(s.0, Lightribbon::new(seg));
        out.push(cycle_ev);
        out.push(ribbon_ev);
        i = i + 1;
        proof {
            assert(pre.drop_first() =~= spawns@.skip(i as int));
            assert(ribbon_ev@ == UpdateModel::AddLightribbon(s.0, seq![s.1, s.1]));
            assert(spawn_events(pre) == seq![cycle_ev@, ribbon_ev@] + spawn_events(
                spawns@.skip(i as int),
            ));
            assert(updates_view(out@) =~= updates_view(out0) + seq![cycle_ev@, ribbon_ev@]);
            assert(updates_view(out0) + (seq![cycle_ev@, ribbon_ev@] + spawn_events(
                spawns@.skip(i as int),
            )) =~= updates_view(out@) + spawn_events(spawns@.skip(i as int)));
        }
    }
    proof {
        assert(spawns@.skip(spawns@.len() as int) =~= Seq::<(PlayerId, Point, Direction)>::empty());
        assert(spawn_events(spawns@) =~= updates_view(out@));
    }
    out
}

impl ArenaInput {
    /// Translate this intent, against the arena's current folded state,
    /// into the events to append, as `input_updates_spec` says. Reads the
    /// arena only; the round's randomness comes from the given generator.
    pub fn process_into_updates(
        &self,
        arena: &Arena,
        player_id: PlayerId,
        now_ms: i64,
        rng: &mut GameRng,
    ) -> (r: Vec<ArenaUpdate>)
        requires
            0 <= now_ms <= NOW_LIMIT,
        ensures
            updates_view(r@) == input_updates_spec(
                *self,
                arena@,
                player_id,
                now_ms,
                old(rng).state,
            ).0,
            final(rng).state == input_updates_spec(
                *self,
                arena@,
                player_id,
                now_ms,
                old(rng).state,
            ).1,
    {
        match self {
            ArenaInput::Start => {
                if arena.started.is_some() {
                    let r: Vec<ArenaUpdate> = Vec::new();
                    proof {
                        assert(updates_view(r@) =~= Seq::<UpdateModel>::empty());
                    }
                    return r;
                }
                let mut humans: usize = 0;
                let mut hi: usize = 0;
                while hi < arena.players.len()
                    invariant
                        hi <= arena.players@.len(),
                        humans <= hi,
                        humans as int == humans_upto(
                            players_model(arena.players@),
                            hi as int,
                        ),
                    decreases arena.players@.len() - hi,
                {
                    proof {
                        assert(players_model(arena.players@)[hi as int] == (
                            arena.players@[hi as int].0,
                            arena.players@[hi as int].1@,
                        ));
                    }
                    if !arena.players[hi].1.is_ai {
                        humans = humans + 1;
                    }
                    hi = hi + 1;
                }
                let q = select_ai_quantity(humans == 1, rng);
                let ais = select_ai_from_pool(q, rng);
                let ids = collect_participants(&arena.players, &ais);
                let spawns = calculate_spawnpoints(ids, rng);

                let mut out: Vec<ArenaUpdate> = Vec::new();
                out.push(ArenaUpdate::SetWinner(None));
                let ghost piece0 = updates_view(out@);
                let mut cycle_removals = removal_cycle_list(&arena.lightcycles);
                out.append(&mut cycle_removals);
                let mut ribbon_removals = removal_ribbon_list(&arena.lightribbons);
                out.append(&mut ribbon_removals);
                let mut ai_adds = ai_add_list(&ais);
                out.append(&mut ai_adds);
                let mut spawn_adds = spawn_event_list(&spawns);
                out.append(&mut spawn_adds);
                out.push(ArenaUpdate::Start(now_ms + ARENA_START_TIMER_MILLISECONDS));
                proof {
                    assert(piece0 =~= seq![UpdateModel::SetWinner(None)]);
                    assert(keys_of(arena@.players) == keys_of(players_model(arena.players@)));
                    assert(updates_view(out@) =~= input_updates_spec(
                        *self,
                        arena@,
                        player_id,
                        now_ms,
                        old(rng).state,
                    ).0);
                }
                out
            },
            ArenaInput::Turn(direction) => {
                let empty_result: Vec<ArenaUpdate> = Vec::new();
                proof {
                    assert(updates_view(empty_result@) =~= Seq::<UpdateModel>::empty());
                }
                match al_find(&arena.lightcycles, player_id) {
                    None => empty_result,
                    Some(i) => {
                        proof {
                            lemma_al_index_of(arena.lightcycles@, player_id);
                        }
                        let lc = arena.lightcycles[i].1;
                        match arena.started {
                            None => empty_result,
                            Some(started) => {
                                if now_ms < started {
                                    empty_result
                                } else if lc.dead {
                                    empty_result
                                } else if lc.direction.is_opposite(*direction) {
                                    empty_result
                                } else {
                                    let mut r: Vec<ArenaUpdate> = Vec::new();
                                    r.push(
                                        ArenaUpdate::UpdateLightribbonAppendPoint(
                                            player_id,
                                            lc.position,
                                        ),
                                    );
                                    r.push(
                                        ArenaUpdate::UpdateLightcycleDirection(
                                            player_id,
                                            *direction,
                                        ),
                                    );
                                    proof {
                                        assert(updates_view(r@) =~= turn_updates(
                                            arena@,
                                            player_id,
                                            *direction,
                                            now_ms,
                                        ));
                                    }
                                    r
                                }
                            },
                        }
                    },
                }
            },
        }
    }
}

} // verus!
