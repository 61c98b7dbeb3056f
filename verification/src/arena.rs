//! One game instance: its entities, its update log, and its per-tick
//! simulation step. All state changes flow through the update log: inputs
//! and the tick phases only append events, and `apply_updates` folds the
//! unapplied suffix into the struct fields.

use vstd::prelude::*;

use crate::assoc::{al_contains, al_find, al_get, al_unique, lemma_al_index_of, RegistryKey};
use crate::entities::{Lightcycle, Lightribbon};
use crate::geometry::{line_bounded, seg_intersection, seg_overlap, Line};
use crate::primitives::{direction_dx, direction_dy, ArenaId, Direction, Player, PlayerId, PlayerModel, Point};
use crate::input::ArenaInput;
use crate::rng::GameRng;
use crate::updates::{
    apply_spec, lemma_updates_view_push, lightcycle_ok, point_ok, points_ok, updates_view,
    ArenaUpdate, UpdateModel,
};

verus! {

/// Arena width in thousandths of an arena unit.
pub const ARENA_WIDTH: i64 = 560_000;

/// Arena height in thousandths of an arena unit.
pub const ARENA_HEIGHT: i64 = 560_000;

/// Seats per arena.
pub const ARENA_MAX_PLAYERS: usize = 8;

/// Countdown between a round's start input and its first moving tick.
pub const ARENA_START_TIMER_MILLISECONDS: i64 = 1000;

/// Largest arena dimension the engine accepts.
pub const DIM_LIMIT: i64 = 100_000_000;

/// Largest tick length, in milliseconds, the simulation step accepts.
pub const DELTA_LIMIT: i64 = 60_000;

/// Largest timestamp, in milliseconds, the engine accepts.
pub const NOW_LIMIT: i64 = 4_000_000_000_000;

/// The mathematical value of an arena.
#[verifier::ext_equal]
pub struct ArenaModel {
    pub id: ArenaId,
    pub name: Seq<char>,
    pub width: i64,
    pub height: i64,
    pub max_players: usize,
    pub started: Option<i64>,
    pub winner: Option<PlayerId>,
    pub players: Seq<(PlayerId, PlayerModel)>,
    pub lightcycles: Seq<(PlayerId, Lightcycle)>,
    pub lightribbons: Seq<(PlayerId, Seq<Point>)>,
    pub updates: Seq<UpdateModel>,
    pub applied: int,
}

/// The mathematical values of a player registry.
pub open spec fn players_model(s: Seq<(PlayerId, Player)>) -> Seq<(PlayerId, PlayerModel)> {
    s.map_values(|e: (PlayerId, Player)| (e.0, e.1@))
}

/// The mathematical values of a trail registry.
pub open spec fn ribbons_model(s: Seq<(PlayerId, Lightribbon)>) -> Seq<(PlayerId, Seq<Point>)> {
    s.map_values(|e: (PlayerId, Lightribbon)| (e.0, e.1@))
}

/// One game instance.
#[derive(Debug)]
pub struct Arena {
    pub id: ArenaId,
    pub name: String,
    pub width: i64,
    pub height: i64,
    pub max_players: usize,
    pub started: Option<i64>,
    pub winner: Option<PlayerId>,
    pub players: Vec<(PlayerId, Player)>,
    pub lightcycles: Vec<(PlayerId, Lightcycle)>,
    pub lightribbons: Vec<(PlayerId, Lightribbon)>,
    pub updates: Vec<ArenaUpdate>,
    pub updates_applied_so_far: usize,
}

impl View for Arena {
    type V = ArenaModel;

    open spec fn view(&self) -> ArenaModel {
        ArenaModel {
            id: self.id,
            name: self.name@,
            width: self.width,
            height: self.height,
            max_players: self.max_players,
            started: self.started,
            winner: self.winner,
            players: players_model(self.players@),
            lightcycles: self.lightcycles@,
            lightribbons: ribbons_model(self.lightribbons@),
            updates: crate::updates::updates_view(self.updates@),
            applied: self.updates_applied_so_far as int,
        }
    }
}

/// The state an arena must be in for the simulation step: dimensions in
/// range, entities in range, registry keys unique, and the fold cursor
/// within the log. Folding any update log preserves all of it.
pub open spec fn wf_arena(a: ArenaModel) -> bool {
    &&& 0 <= a.width <= DIM_LIMIT
    &&& 0 <= a.height <= DIM_LIMIT
    &&& 0 <= a.applied <= a.updates.len()
    &&& forall|i: int| 0 <= i < a.lightcycles.len() ==> lightcycle_ok(#[trigger] a.lightcycles[i].1)
    &&& forall|i: int| 0 <= i < a.lightribbons.len() ==> points_ok(#[trigger] a.lightribbons[i].1)
    &&& al_unique(a.players)
    &&& al_unique(a.lightcycles)
    &&& al_unique(a.lightribbons)
}

/// Fold one pending event into the state and advance the fold cursor.
pub open spec fn fold_step(a: ArenaModel) -> ArenaModel
    recommends
        0 <= a.applied < a.updates.len(),
{
    let b = apply_spec(a.updates[a.applied], a);
    ArenaModel { updates: a.updates, applied: a.applied + 1, ..b }
}

/// Fold every pending event, oldest first. Folding a caught-up arena is
/// the identity, so folding twice is the same as folding once.
pub open spec fn fold_all(a: ArenaModel) -> ArenaModel
    decreases a.updates.len() - a.applied,
{
    if 0 <= a.applied < a.updates.len() {
        fold_all(fold_step(a))
    } else {
        a
    }
}

/// Folding one event preserves well-formedness.
pub proof fn lemma_fold_step_wf(a: ArenaModel)
    requires
        wf_arena(a),
        0 <= a.applied < a.updates.len(),
    ensures
        wf_arena(fold_step(a)),
{
    crate::updates::lemma_apply_spec_wf(a.updates[a.applied], a);
}

/// Folding everything preserves well-formedness.
pub proof fn lemma_fold_all_wf(a: ArenaModel)
    requires
        wf_arena(a),
    ensures
        wf_arena(fold_all(a)),
    decreases a.updates.len() - a.applied,
{
    if 0 <= a.applied < a.updates.len() {
        lemma_fold_step_wf(a);
        lemma_fold_all_wf(fold_step(a));
    }
}

/// A folded arena is caught up: its cursor equals its log length, and the
/// log itself is untouched.
pub proof fn lemma_fold_all_caught_up(a: ArenaModel)
    requires
        0 <= a.applied <= a.updates.len(),
    ensures
        fold_all(a).applied == fold_all(a).updates.len(),
        fold_all(a).updates == a.updates,
    decreases a.updates.len() - a.applied,
{
    if 0 <= a.applied < a.updates.len() {
        lemma_fold_all_caught_up(fold_step(a));
    }
}

/// Folding is idempotent: with no new events, a second fold is a no-op.
pub proof fn lemma_fold_all_idempotent(a: ArenaModel)
    requires
        0 <= a.applied <= a.updates.len(),
    ensures
        fold_all(fold_all(a)) == fold_all(a),
{
    lemma_fold_all_caught_up(a);
}


/// How far a vehicle travels in `delta` milliseconds, in grid units.
pub open spec fn displacement(speed: i64, delta: i64) -> int {
    (speed * delta) / 1000
}

/// Where an alive vehicle stands after one tick.
pub open spec fn moved_point(lc: Lightcycle, delta: i64) -> Point {
    Point {
        x: (lc.position.x + direction_dx(lc.direction) * displacement(lc.speed, delta)) as i64,
        y: (lc.position.y + direction_dy(lc.direction) * displacement(lc.speed, delta)) as i64,
    }
}

/// Where a vehicle stood one tick before its current position.
pub open spec fn back_point(lc: Lightcycle, delta: i64) -> Point {
    Point {
        x: (lc.position.x - direction_dx(lc.direction) * displacement(lc.speed, delta)) as i64,
        y: (lc.position.y - direction_dy(lc.direction) * displacement(lc.speed, delta)) as i64,
    }
}

/// The movement events of the first `k` vehicles: every alive one moves.
pub open spec fn move_events_upto(cs: Seq<(PlayerId, Lightcycle)>, delta: i64, k: int) -> Seq<
    UpdateModel,
>
    decreases k,
{
    if k <= 0 {
        Seq::empty()
    } else {
        move_events_upto(cs, delta, k - 1) + (if cs[k - 1].1.dead {
            Seq::empty()
        } else {
            seq![
                UpdateModel::UpdateLightcyclePosition(
                    cs[k - 1].0,
                    moved_point(cs[k - 1].1, delta),
                ),
            ]
        })
    }
}

/// The movement events of one tick.
pub open spec fn move_events(a: ArenaModel, delta: i64) -> Seq<UpdateModel> {
    move_events_upto(a.lightcycles, delta, a.lightcycles.len() as int)
}

/// The consecutive segments of a trail.
pub open spec fn ribbon_segments(pts: Seq<Point>) -> Seq<Line> {
    if pts.len() == 0 {
        Seq::empty()
    } else {
        Seq::new((pts.len() - 1) as nat, |i: int| Line { from: pts[i], to: pts[i + 1] })
    }
}

/// A collision of a traveled path with a trail: a collinear overlap, or a
/// right-angle crossing at a point.
#[derive(Debug, Clone, Copy, PartialEq, Eq, Structural)]
pub enum Hit {
    Overlap,
    Cross(Point),
}

/// The first collision of the traveled path with a trail's segments, in
/// order: an overlap counts before a crossing of the same segment.
pub open spec fn find_hit_segs(travel: Line, segs: Seq<Line>) -> Option<Hit>
    decreases segs.len(),
{
    if segs.len() == 0 {
        None
    } else if seg_overlap(travel, segs[0]) {
        Some(Hit::Overlap)
    } else {
        match seg_intersection(travel, segs[0]) {
            Some(p) => Some(Hit::Cross(p)),
            None => find_hit_segs(travel, segs.drop_first()),
        }
    }
}

/// The first collision of the traveled path with any trail, trails in
/// registry order.
pub open spec fn find_hit_ribbons(travel: Line, ribs: Seq<(PlayerId, Seq<Point>)>) -> Option<Hit>
    decreases ribs.len(),
{
    if ribs.len() == 0 {
        None
    } else {
        match find_hit_segs(travel, ribbon_segments(ribs[0].1)) {
            Some(h) => Some(h),
            None => find_hit_ribbons(travel, ribs.drop_first()),
        }
    }
}

/// Whether some other, alive vehicle stands exactly at `pos`.
pub open spec fn hits_other_cycle(cs: Seq<(PlayerId, Lightcycle)>, id: PlayerId, pos: Point) -> bool {
    exists|j: int| 0 <= j < cs.len() && cs[j].0 != id && !cs[j].1.dead && cs[j].1.position == pos
}

/// A position outside the arena walls.
pub open spec fn out_of_bounds(p: Point, w: i64, h: i64) -> bool {
    p.x < 0 || p.y < 0 || p.x > w || p.y > h
}

/// The collision verdict for the vehicle at registry position `i`: trail
/// collisions first (a crossing also clamps the position), then the walls,
/// then exact coincidence with another alive vehicle.
pub open spec fn cycle_collision_events(a: ArenaModel, i: int, delta: i64) -> Seq<UpdateModel> {
    let id = a.lightcycles[i].0;
    let lc = a.lightcycles[i].1;
    if lc.dead {
        Seq::empty()
    } else {
        let travel = Line { from: back_point(lc, delta), to: lc.position };
        match find_hit_ribbons(travel, a.lightribbons) {
            Some(Hit::Overlap) => seq![UpdateModel::UpdateLightcycleApplyDeath(id)],
            Some(Hit::Cross(p)) => seq![
                UpdateModel::UpdateLightcyclePosition(id, p),
                UpdateModel::UpdateLightcycleApplyDeath(id),
            ],
            None => {
                if out_of_bounds(lc.position, a.width, a.height) {
                    seq![UpdateModel::UpdateLightcycleApplyDeath(id)]
                } else if hits_other_cycle(a.lightcycles, id, lc.position) {
                    seq![UpdateModel::UpdateLightcycleApplyDeath(id)]
                } else {
                    Seq::empty()
                }
            },
        }
    }
}

/// The collision events of the first `k` vehicles.
pub open spec fn collision_events_upto(a: ArenaModel, delta: i64, k: int) -> Seq<UpdateModel>
    decreases k,
{
    if k <= 0 {
        Seq::empty()
    } else {
        collision_events_upto(a, delta, k - 1) + cycle_collision_events(a, k - 1, delta)
    }
}

/// The collision events of one tick.
pub open spec fn collision_events(a: ArenaModel, delta: i64) -> Seq<UpdateModel> {
    collision_events_upto(a, delta, a.lightcycles.len() as int)
}

/// The trail events of the first `k` trails: each alive vehicle's trail
/// follows it; trails of dead or unknown vehicles stay.
pub open spec fn ribbon_tick_events_upto(a: ArenaModel, k: int) -> Seq<UpdateModel>
    decreases k,
{
    if k <= 0 {
        Seq::empty()
    } else {
        let id = a.lightribbons[k - 1].0;
        ribbon_tick_events_upto(a, k - 1) + (if !al_contains(a.lightcycles, id) {
            Seq::empty()
        } else {
            let lc = al_get(a.lightcycles, id);
            if lc.dead {
                Seq::empty()
            } else {
                seq![UpdateModel::UpdateLightribbonReplaceLatestPoint(id, lc.position)]
            }
        })
    }
}

/// The trail events of one tick.
pub open spec fn ribbon_tick_events(a: ArenaModel) -> Seq<UpdateModel> {
    ribbon_tick_events_upto(a, a.lightribbons.len() as int)
}

/// How many of the first `k` vehicles are alive.
pub open spec fn alive_count(cs: Seq<(PlayerId, Lightcycle)>, k: int) -> int
    decreases k,
{
    if k <= 0 {
        0
    } else {
        alive_count(cs, k - 1) + (if cs[k - 1].1.dead {
            0int
        } else {
            1int
        })
    }
}

/// The registry position of the first alive vehicle, or -1.
pub open spec fn first_alive_idx(cs: Seq<(PlayerId, Lightcycle)>) -> int
    decreases cs.len(),
{
    if cs.len() == 0 {
        -1
    } else if !cs[0].1.dead {
        0
    } else if first_alive_idx(cs.drop_first()) < 0 {
        -1
    } else {
        first_alive_idx(cs.drop_first()) + 1
    }
}

/// `first_alive_idx` finds the first alive vehicle, and only one.
pub proof fn lemma_first_alive_idx(cs: Seq<(PlayerId, Lightcycle)>)
    ensures
        -1 <= first_alive_idx(cs) < cs.len(),
        first_alive_idx(cs) >= 0 ==> !cs[first_alive_idx(cs)].1.dead,
        forall|j: int| 0 <= j < first_alive_idx(cs) ==> cs[j].1.dead,
        first_alive_idx(cs) == -1 ==> forall|j: int| 0 <= j < cs.len() ==> cs[j].1.dead,
    decreases cs.len(),
{
    if cs.len() > 0 && cs[0].1.dead {
        let d = cs.drop_first();
        lemma_first_alive_idx(d);
        assert forall|j: int| 0 <= j < first_alive_idx(cs) implies cs[j].1.dead by {
            if j > 0 {
                assert(cs[j] == d[j - 1]);
            }
        }
        if first_alive_idx(cs) == -1 {
            assert forall|j: int| 0 <= j < cs.len() implies cs[j].1.dead by {
                if j > 0 {
                    assert(cs[j] == d[j - 1]);
                }
            }
        }
    }
}

/// Any position that is the first alive one is the one `first_alive_idx`
/// gives.
pub proof fn lemma_first_alive_idx_is(cs: Seq<(PlayerId, Lightcycle)>, i: int)
    requires
        0 <= i < cs.len(),
        !cs[i].1.dead,
        forall|j: int| 0 <= j < i ==> cs[j].1.dead,
    ensures
        first_alive_idx(cs) == i,
    decreases cs.len(),
{
    if i > 0 {
        let d = cs.drop_first();
        assert(d[i - 1] == cs[i]);
        assert forall|j: int| 0 <= j < i - 1 implies d[j].1.dead by {
            assert(d[j] == cs[j + 1]);
        }
        lemma_first_alive_idx_is(d, i - 1);
    }
}

/// The winner event of one tick: only for a round of more than one
/// vehicle, with no winner yet, where exactly one vehicle remains alive;
/// that vehicle's player wins.
pub open spec fn win_events(a: ArenaModel) -> Seq<UpdateModel> {
    if a.winner is Some {
        Seq::empty()
    } else if a.lightcycles.len() <= 1 {
        Seq::empty()
    } else if alive_count(a.lightcycles, a.lightcycles.len() as int) == 1 {
        seq![
            UpdateModel::SetWinner(
                Some(a.lightcycles[first_alive_idx(a.lightcycles)].0),
            ),
        ]
    } else {
        Seq::empty()
    }
}

/// The round-end event of one tick: once every vehicle is dead (or none
/// exists), the round stops; folding `End` clears the vehicle and trail
/// registries, so a stopped arena holds neither.
pub open spec fn end_events(a: ArenaModel) -> Seq<UpdateModel> {
    if alive_count(a.lightcycles, a.lightcycles.len() as int) == 0 {
        seq![UpdateModel::End]
    } else {
        Seq::empty()
    }
}

/// An arena with events appended to its log.
pub open spec fn append_updates(a: ArenaModel, evs: Seq<UpdateModel>) -> ArenaModel {
    ArenaModel { updates: a.updates + evs, ..a }
}

/// One simulation tick: fold pending input events; if the round runs and
/// the countdown has elapsed, move every alive vehicle, resolve collisions,
/// extend the trails, test the win condition, and test the round's end.
/// Each phase's events are folded before the next phase reads the state.
pub open spec fn tick_spec(a0: ArenaModel, delta: i64, now: i64) -> ArenaModel {
    let a1 = fold_all(a0);
    match a1.started {
        None => a1,
        Some(started) => {
            if now < started {
                a1
            } else {
                let a2 = fold_all(append_updates(a1, move_events(a1, delta)));
                let a3 = fold_all(append_updates(a2, collision_events(a2, delta)));
                let a4 = fold_all(append_updates(a3, ribbon_tick_events(a3)));
                let a5 = fold_all(append_updates(a4, win_events(a4)));
                fold_all(append_updates(a5, end_events(a5)))
            }
        },
    }
}


/// Bound on a product of a speed and a tick length.
proof fn lemma_speed_delta_bound(speed: i64, delta: i64)
    requires
        0 <= speed <= 1_000_000,
        0 <= delta <= 60_000,
    ensures
        0 <= speed * delta <= 60_000_000_000,
{
    assert(0 <= speed * delta <= 60_000_000_000) by (nonlinear_arith)
        requires
            0 <= speed <= 1_000_000,
            0 <= delta <= 60_000,
    ;
}

/// Bound on a displacement scaled by a unit component.
proof fn lemma_unit_scale(u: i64, d: i64)
    requires
        -1 <= u <= 1,
        0 <= d <= 60_000_000,
    ensures
        -60_000_000 <= u * d <= 60_000_000,
{
    assert(-60_000_000 <= u * d <= 60_000_000) by (nonlinear_arith)
        requires
            -1 <= u <= 1,
            0 <= d <= 60_000_000,
    ;
}

/// The first collision of the traveled path within one trail.
fn find_hit_in_ribbon(travel: &Line, rib: &Lightribbon) -> (r: Option<Hit>)
    requires
        line_bounded(*travel),
        points_ok(rib@),
    ensures
        r == find_hit_segs(*travel, ribbon_segments(rib@)),
{
    let ghost segs = ribbon_segments(rib@);
    if rib.points.len() == 0 {
        return None;
    }
    let mut j: usize = 0;
    proof {
        assert(segs.skip(0) =~= segs);
    }
    while j < rib.points.len() - 1
        invariant
            line_bounded(*travel),
            points_ok(rib@),
            rib@.len() >= 1,
            segs == ribbon_segments(rib@),
            segs.len() == rib@.len() - 1,
            j <= segs.len(),
            find_hit_segs(*travel, segs) == find_hit_segs(*travel, segs.skip(j as int)),
        decreases rib@.len() - j,
    {
        let seg = Line { from: rib.points[j], to: rib.points[j + 1] };
        proof {
            assert(segs[j as int] == seg);
            assert(segs.skip(j as int)[0] == segs[j as int]);
            assert(point_ok(rib@[j as int]) && point_ok(rib@[j as int + 1]));
        }
        if travel.overlaps_segment(&seg) {
            return Some(Hit::Overlap);
        }
        match travel.intersection(&seg) {
            Some(p) => {
                return Some(Hit::Cross(p));
            },
            None => {},
        }
        j = j + 1;
        proof {
            assert(segs.skip(j - 1).drop_first() =~= segs.skip(j as int));
        }
    }
    proof {
        assert(segs.skip(j as int) =~= Seq::<Line>::empty());
    }
    None
}

/// The first collision of the traveled path with any trail.
fn find_hit(travel: &Line, ribbons: &Vec<(PlayerId, Lightribbon)>) -> (r: Option<Hit>)
    requires
        line_bounded(*travel),
        forall|j: int| 0 <= j < ribbons@.len() ==> points_ok(#[trigger] ribbons@[j].1@),
    ensures
        r == find_hit_ribbons(*travel, ribbons_model(ribbons@)),
{
    let ghost m = ribbons_model(ribbons@);
    let mut i: usize = 0;
    proof {
        assert(m.skip(0) =~= m);
    }
    while i < ribbons.len()
        invariant
            line_bounded(*travel),
            forall|j: int| 0 <= j < ribbons@.len() ==> points_ok(#[trigger] ribbons@[j].1@),
            m == ribbons_model(ribbons@),
            m.len() == ribbons@.len(),
            i <= ribbons@.len(),
            find_hit_ribbons(*travel, m) == find_hit_ribbons(*travel, m.skip(i as int)),
        decreases ribbons@.len() - i,
    {
        proof {
            assert(m[i as int] == (ribbons@[i as int].0, ribbons@[i as int].1@));
            assert(m.skip(i as int)[0] == m[i as int]);
        }
        match find_hit_in_ribbon(travel, &ribbons[i].1) {
            Some(h) => {
                return Some(h);
            },
            None => {},
        }
        i = i + 1;
        proof {
            assert(m.skip(i - 1).drop_first() =~= m.skip(i as int));
        }
    }
    proof {
        assert(m.skip(i as int) =~= Seq::<(PlayerId, Seq<Point>)>::empty());
    }
    None
}

/// Whether some other, alive vehicle stands exactly at `pos`.
fn hits_other(cycles: &Vec<(PlayerId, Lightcycle)>, id: PlayerId, pos: Point) -> (r: bool)
    ensures
        r == hits_other_cycle(cycles@, id, pos),
{
    let mut j: usize = 0;
    while j < cycles.len()
        invariant
            j <= cycles@.len(),
            forall|m: int|
                0 <= m < j ==> !(cycles@[m].0 != id && !(#[trigger] cycles@[m]).1.dead
                    && cycles@[m].1.position == pos),
        decreases cycles@.len() - j,
    {
        let e = cycles[j];
        if !e.0.key_eq(id) && !e.1.dead && e.1.position.x == pos.x && e.1.position.y == pos.y {
            proof {
                assert(cycles@[j as int].1.position == pos);
            }
            return true;
        }
        j = j + 1;
    }
    false
}


/// The events a player's departure is worth: while a round is live, the
/// leaver's vehicle and trail are removed along with its membership;
/// in a stopped arena only the membership goes.
pub open spec fn part_events(a: ArenaModel, pid: PlayerId) -> Seq<UpdateModel> {
    (if a.started is Some && al_contains(a.lightcycles, pid) {
        seq![UpdateModel::RemoveLightcycle(pid)]
    } else {
        Seq::empty()
    }) + (if a.started is Some && al_contains(a.lightribbons, pid) {
        seq![UpdateModel::RemoveLightribbon(pid)]
    } else {
        Seq::empty()
    }) + seq![UpdateModel::RemovePlayer(pid)]
}

impl Arena {
    /// Queue the addition of a player; takes effect on the next fold.
    pub fn add_player(&mut self, player: Player)
        ensures
            final(self)@ == (ArenaModel {
                updates: old(self)@.updates.push(UpdateModel::AddPlayer(player@.id, player@)),
                ..old(self)@
            }),
    {
        let ghost pm = player@;
        let pid = player.id;
        self.updates.push(ArenaUpdate::AddPlayer(pid, player));
        proof {
            assert(self@.updates =~= old(self)@.updates.push(UpdateModel::AddPlayer(pm.id, pm)));
            assert(self@ =~= (ArenaModel {
                updates: old(self)@.updates.push(UpdateModel::AddPlayer(pm.id, pm)),
                ..old(self)@
            }));
        }
    }

    /// Queue the removal of a player; takes effect on the next fold.
    pub fn remove_player(&mut self, player_id: PlayerId)
        ensures
            final(self)@ == (ArenaModel {
                updates: old(self)@.updates.push(UpdateModel::RemovePlayer(player_id)),
                ..old(self)@
            }),
    {
        self.updates.push(ArenaUpdate::RemovePlayer(player_id));
        proof {
            assert(self@.updates =~= old(self)@.updates.push(UpdateModel::RemovePlayer(player_id)));
            assert(self@ =~= (ArenaModel {
                updates: old(self)@.updates.push(UpdateModel::RemovePlayer(player_id)),
                ..old(self)@
            }));
        }
    }


    /// Queue a player's departure, as `part_events` says: in a live round
    /// its vehicle and trail are removed too; all of it takes effect on
    /// the next fold.
    pub fn part_player(&mut self, player_id: PlayerId)
        ensures
            final(self)@ == append_updates(old(self)@, part_events(old(self)@, player_id)),
    {
        let ghost a0 = self@;
        let ghost f_r = |e: (PlayerId, Lightribbon)| (e.0, e.1@);
        proof {
            assert(ribbons_model(self.lightribbons@) =~= self.lightribbons@.map_values(f_r));
            crate::assoc::lemma_al_index_of_map(self.lightribbons@, player_id, f_r);
        }
        if self.started.is_some() {
            match crate::assoc::al_find(&self.lightcycles, player_id) {
                Some(_found) => {
                    let ghost out0 = self.updates@;
                    self.updates.push(ArenaUpdate::RemoveLightcycle(player_id));
                    proof {
                        lemma_updates_view_push(out0, ArenaUpdate::RemoveLightcycle(player_id));
                    }
                },
                None => {},
            }
            match crate::assoc::al_find(&self.lightribbons, player_id) {
                Some(_found) => {
                    let ghost out1 = self.updates@;
                    self.updates.push(ArenaUpdate::RemoveLightribbon(player_id));
                    proof {
                        lemma_updates_view_push(out1, ArenaUpdate::RemoveLightribbon(player_id));
                    }
                },
                None => {},
            }
        }
        let ghost out2 = self.updates@;
        self.updates.push(ArenaUpdate::RemovePlayer(player_id));
        proof {
            lemma_updates_view_push(out2, ArenaUpdate::RemovePlayer(player_id));
            assert(self@.updates =~= a0.updates + part_events(a0, player_id));
            assert(self@ =~= append_updates(a0, part_events(a0, player_id)));
        }
    }

    /// Forget the log and its cursor; the folded state stays as it is.
    pub fn clear_updates(&mut self)
        ensures
            final(self)@ == (ArenaModel { updates: Seq::empty(), applied: 0, ..old(self)@ }),
    {
        self.updates.clear();
        self.updates_applied_so_far = 0;
        proof {
            assert(self@.updates =~= Seq::<UpdateModel>::empty());
            assert(self@ =~= (ArenaModel { updates: Seq::empty(), applied: 0, ..old(self)@ }));
        }
    }


    /// Movement phase: queue the new position of every alive vehicle.
    fn update_lightcycle_positions(&mut self, delta_ms: i64)
        requires
            wf_arena(old(self)@),
            0 <= delta_ms <= DELTA_LIMIT,
        ensures
            final(self)@ == append_updates(old(self)@, move_events(old(self)@, delta_ms)),
    {
        let ghost a0 = old(self)@;
        let n = self.lightcycles.len();
        let mut i: usize = 0;
        proof {
            assert(self@ =~= append_updates(a0, move_events_upto(a0.lightcycles, delta_ms, 0)));
        }
        while i < n
            invariant
                wf_arena(a0),
                0 <= delta_ms <= DELTA_LIMIT,
                a0 == old(self)@,
                n == a0.lightcycles.len(),
                i <= n,
                self@ == append_updates(a0, move_events_upto(a0.lightcycles, delta_ms, i as int)),
            decreases n - i,
        {
            proof {
                assert(self@.lightcycles == a0.lightcycles);
            }
            let entry = self.lightcycles[i];
            if !entry.1.dead {
                proof {
                    assert(lightcycle_ok(a0.lightcycles[i as int].1));
                    lemma_speed_delta_bound(entry.1.speed, delta_ms);
                }
                let v = entry.1.direction.as_velocity();
                let disp = entry.1.speed * delta_ms / 1000;
                proof {
                    lemma_unit_scale(v.0, disp);
                    lemma_unit_scale(v.1, disp);
                }
                let np = Point {
                    x: entry.1.position.x + v.0 * disp,
                    y: entry.1.position.y + v.1 * disp,
                };
                let ghost out0 = self.updates@;
                self.updates.push(ArenaUpdate::UpdateLightcyclePosition(entry.0, np));
                proof {
                    lemma_updates_view_push(
                        out0,
                        ArenaUpdate::UpdateLightcyclePosition(entry.0, np),
                    );
                    assert(np == moved_point(entry.1, delta_ms));
                }
            }
            i = i + 1;
            proof {
                assert(self@ =~= append_updates(
                    a0,
                    move_events_upto(a0.lightcycles, delta_ms, i as int),
                ));
            }
        }
    }

    /// Collision phase: queue the death (and, for a crossing, the clamped
    /// position) of every vehicle whose travel this tick was fatal.
    fn calculate_lightcycle_collisions(&mut self, delta_ms: i64)
        requires
            wf_arena(old(self)@),
            0 <= delta_ms <= DELTA_LIMIT,
        ensures
            final(self)@ == append_updates(old(self)@, collision_events(old(self)@, delta_ms)),
    {
        let ghost a0 = old(self)@;
        let n = self.lightcycles.len();
        let mut i: usize = 0;
        proof {
            assert(self@ =~= append_updates(a0, collision_events_upto(a0, delta_ms, 0)));
        }
        while i < n
            invariant
                wf_arena(a0),
                0 <= delta_ms <= DELTA_LIMIT,
                a0 == old(self)@,
                n == a0.lightcycles.len(),
                i <= n,
                self@ == append_updates(a0, collision_events_upto(a0, delta_ms, i as int)),
            decreases n - i,
        {
            proof {
                assert(self@.lightcycles == a0.lightcycles);
                assert(self@.lightribbons == a0.lightribbons);
            }
            let entry = self.lightcycles[i];
            if !entry.1.dead {
                proof {
                    assert(lightcycle_ok(a0.lightcycles[i as int].1));
                    lemma_speed_delta_bound(entry.1.speed, delta_ms);
                }
                let v = entry.1.direction.as_velocity();
                let disp = entry.1.speed * delta_ms / 1000;
                proof {
                    lemma_unit_scale(v.0, disp);
                    lemma_unit_scale(v.1, disp);
                }
                let travel = Line {
                    from: Point {
                        x: entry.1.position.x - v.0 * disp,
                        y: entry.1.position.y - v.1 * disp,
                    },
                    to: entry.1.position,
                };
                proof {
                    assert(travel.from == back_point(entry.1, delta_ms));
                    assert(a0.lightribbons == ribbons_model(self.lightribbons@));
                    assert forall|j: int| 0 <= j < self.lightribbons@.len() implies points_ok(
                        #[trigger] self.lightribbons@[j].1@,
                    ) by {
                        assert(ribbons_model(self.lightribbons@)[j] == (
                            self.lightribbons@[j].0,
                            self.lightribbons@[j].1@,
                        ));
                        assert(points_ok(a0.lightribbons[j].1));
                    }
                }
                let verdict = find_hit(&travel, &self.lightribbons);
                let ghost out0 = self.updates@;
                match verdict {
                    Some(Hit::Overlap) => {
                        self.updates.push(ArenaUpdate::UpdateLightcycleApplyDeath(entry.0));
                        proof {
                            lemma_updates_view_push(
                                out0,
                                ArenaUpdate::UpdateLightcycleApplyDeath(entry.0),
                            );
                        }
                    },
                    Some(Hit::Cross(p)) => {
                        self.updates.push(ArenaUpdate::UpdateLightcyclePosition(entry.0, p));
                        self.updates.push(ArenaUpdate::UpdateLightcycleApplyDeath(entry.0));
                        proof {
                            lemma_updates_view_push(
                                out0,
                                ArenaUpdate::UpdateLightcyclePosition(entry.0, p),
                            );
                            lemma_updates_view_push(
                                out0.push(ArenaUpdate::UpdateLightcyclePosition(entry.0, p)),
                                ArenaUpdate::UpdateLightcycleApplyDeath(entry.0),
                            );
                        }
                    },
                    None => {
                        let oob = entry.1.position.x < 0 || entry.1.position.y < 0
                            || entry.1.position.x > self.width || entry.1.position.y > self.height;
                        if oob {
                            self.updates.push(ArenaUpdate::UpdateLightcycleApplyDeath(entry.0));
                            proof {
                                lemma_updates_view_push(
                                    out0,
                                    ArenaUpdate::UpdateLightcycleApplyDeath(entry.0),
                                );
                            }
                        } else if hits_other(&self.lightcycles, entry.0, entry.1.position) {
                            self.updates.push(ArenaUpdate::UpdateLightcycleApplyDeath(entry.0));
                            proof {
                                lemma_updates_view_push(
                                    out0,
                                    ArenaUpdate::UpdateLightcycleApplyDeath(entry.0),
                                );
                            }
                        }
                    },
                }
            }
            i = i + 1;
            proof {
                assert(self@ =~= append_updates(
                    a0,
                    collision_events_upto(a0, delta_ms, i as int),
                ));
            }
        }
    }

    /// Trail phase: queue, for each alive vehicle, the replacement of its
    /// trail's last point by the vehicle's position.
    fn update_lightribbon_positions(&mut self)
        ensures
            final(self)@ == append_updates(old(self)@, ribbon_tick_events(old(self)@)),
    {
        let ghost a0 = old(self)@;
        let n = self.lightribbons.len();
        let mut i: usize = 0;
        proof {
            assert(self@ =~= append_updates(a0, ribbon_tick_events_upto(a0, 0)));
        }
        while i < n
            invariant
                a0 == old(self)@,
                n == a0.lightribbons.len(),
                i <= n,
                self@ == append_updates(a0, ribbon_tick_events_upto(a0, i as int)),
            decreases n - i,
        {
            proof {
                assert(self@.lightcycles == a0.lightcycles);
                assert(self@.lightribbons == a0.lightribbons);
                assert(a0.lightribbons[i as int].0 == self.lightribbons@[i as int].0);
            }
            let rid = self.lightribbons[i].0;
            match al_find(&self.lightcycles, rid) {
                None => {
                    proof {
                        lemma_al_index_of(a0.lightcycles, rid);
                    }
                },
                Some(ci) => {
                    proof {
                        lemma_al_index_of(a0.lightcycles, rid);
                    }
                    let lc = self.lightcycles[ci].1;
                    if !lc.dead {
                        let ghost out0 = self.updates@;
                        self.updates.push(
                            ArenaUpdate::UpdateLightribbonReplaceLatestPoint(rid, lc.position),
                        );
                        proof {
                            lemma_updates_view_push(
                                out0,
                                ArenaUpdate::UpdateLightribbonReplaceLatestPoint(rid, lc.position),
                            );
                        }
                    }
                },
            }
            i = i + 1;
            proof {
                assert(self@ =~= append_updates(a0, ribbon_tick_events_upto(a0, i as int)));
            }
        }
    }

    /// Win phase: in a round of more than one vehicle with no winner yet,
    /// queue the winner once exactly one vehicle remains alive.
    fn test_win_condition(&mut self)
        ensures
            final(self)@ == append_updates(old(self)@, win_events(old(self)@)),
    {
        let ghost a0 = old(self)@;
        if self.winner.is_some() {
            proof {
                assert(self@ =~= append_updates(a0, win_events(a0)));
            }
            return;
        }
        let n = self.lightcycles.len();
        if n <= 1 {
            proof {
                assert(self@ =~= append_updates(a0, win_events(a0)));
            }
            return;
        }
        let mut alive: usize = 0;
        let mut first: usize = 0;
        let mut found = false;
        let mut i: usize = 0;
        while i < n
            invariant
                a0 == old(self)@,
                self@ == a0,
                n == a0.lightcycles.len(),
                i <= n,
                alive <= i,
                alive as int == alive_count(a0.lightcycles, i as int),
                found ==> (first < i && !a0.lightcycles[first as int].1.dead && forall|j: int|
                    0 <= j < first ==> a0.lightcycles[j].1.dead),
                !found ==> forall|j: int| 0 <= j < i ==> a0.lightcycles[j].1.dead,
                !found ==> alive == 0,
                found ==> alive >= 1,
            decreases n - i,
        {
            let e = self.lightcycles[i];
            if !e.1.dead {
                if !found {
                    found = true;
                    first = i;
                }
                alive = alive + 1;
            }
            i = i + 1;
        }
        if alive == 1 {
            proof {
                lemma_first_alive_idx_is(a0.lightcycles, first as int);
            }
            let winner_id = self.lightcycles[first].0;
            let ghost out0 = self.updates@;
            self.updates.push(ArenaUpdate::SetWinner(Some(winner_id)));
            proof {
                lemma_updates_view_push(out0, ArenaUpdate::SetWinner(Some(winner_id)));
                assert(self@ =~= append_updates(a0, win_events(a0)));
            }
        } else {
            proof {
                assert(self@ =~= append_updates(a0, win_events(a0)));
            }
        }
    }

    /// Round-end phase: queue the end of the round once no vehicle is
    /// alive.
    fn test_round_end(&mut self)
        ensures
            final(self)@ == append_updates(old(self)@, end_events(old(self)@)),
    {
        let ghost a0 = old(self)@;
        let n = self.lightcycles.len();
        let mut alive: usize = 0;
        let mut i: usize = 0;
        while i < n
            invariant
                a0 == old(self)@,
                self@ == a0,
                n == a0.lightcycles.len(),
                i <= n,
                alive <= i,
                alive as int == alive_count(a0.lightcycles, i as int),
            decreases n - i,
        {
            let e = self.lightcycles[i];
            if !e.1.dead {
                alive = alive + 1;
            }
            i = i + 1;
        }
        if alive == 0 {
            let ghost out0 = self.updates@;
            self.updates.push(ArenaUpdate::End);
            proof {
                lemma_updates_view_push(out0, ArenaUpdate::End);
                assert(self@ =~= append_updates(a0, end_events(a0)));
            }
        } else {
            proof {
                assert(self@ =~= append_updates(a0, end_events(a0)));
            }
        }
    }

    /// One simulation tick, as `tick_spec` says: fold the pending input
    /// events; once the round runs and the countdown has elapsed, run the
    /// movement, collision, trail, win, and round-end phases, folding each
    /// phase's events before the next phase reads the state.
    pub fn update(&mut self, delta_ms: i64, now_ms: i64)
        requires
            wf_arena(old(self)@),
            0 <= delta_ms <= DELTA_LIMIT,
        ensures
            final(self)@ == tick_spec(old(self)@, delta_ms, now_ms),
            wf_arena(final(self)@),
    {
        self.apply_updates();
        let started = match self.started {
            Some(s) => s,
            None => {
                return ;
            },
        };
        if now_ms < started {
            return ;
        }
        self.update_lightcycle_positions(delta_ms);
        self.apply_updates();
        self.calculate_lightcycle_collisions(delta_ms);
        self.apply_updates();
        self.update_lightribbon_positions();
        self.apply_updates();
        self.test_win_condition();
        self.apply_updates();
        self.test_round_end();
        self.apply_updates();
    }

    /// Fold every pending event into the struct fields. Idempotent: with
    /// no new events a second call leaves the arena unchanged.
    pub fn apply_updates(&mut self)
        requires
            old(self)@.applied <= old(self)@.updates.len(),
        ensures
            final(self)@ == fold_all(old(self)@),
            final(self)@.applied == final(self)@.updates.len(),
            final(self)@.updates == old(self)@.updates,
            old(self)@.applied == old(self)@.updates.len() ==> final(self)@ == old(self)@,
            wf_arena(old(self)@) ==> wf_arena(final(self)@),
    {
        proof {
            lemma_fold_all_caught_up(old(self)@);
            if wf_arena(old(self)@) {
                lemma_fold_all_wf(old(self)@);
            }
        }
        while self.updates_applied_so_far < self.updates.len()
            invariant
                self@.applied <= self@.updates.len(),
                fold_all(self@) == fold_all(old(self)@),
            decreases self@.updates.len() - self@.applied,
        {
            let i = self.updates_applied_so_far;
            let ghost pre = self@;
            let ev = self.updates[i].duplicate();
            ev.apply(self);
            self.updates_applied_so_far = i + 1;
            proof {
                assert(self@ =~= fold_step(pre));
            }
        }
    }
}

/// A fresh, empty, stopped arena under the given id and name, with the
/// standard dimensions and seats.
pub open spec fn fresh_arena(id: ArenaId, name: Seq<char>) -> ArenaModel {
    ArenaModel {
        id,
        name,
        width: ARENA_WIDTH,
        height: ARENA_HEIGHT,
        max_players: ARENA_MAX_PLAYERS,
        started: None,
        winner: None,
        players: Seq::empty(),
        lightcycles: Seq::empty(),
        lightribbons: Seq::empty(),
        updates: Seq::empty(),
        applied: 0,
    }
}

/// The folded-state name of an arena made from raw text.
pub uninterp spec fn upper_of(s: Seq<char>) -> Seq<char>;

/// Relies on str::to_uppercase: the result depends on the characters alone.
#[verifier::external_body]
fn uppercase(s: &str) -> (r: String)
    ensures
        r@ == upper_of(s@),
{
    s.to_uppercase()
}

impl Arena {
    /// A fresh, empty, stopped arena under the given id, named by the
    /// given text in upper case, with the standard dimensions and seats.
    pub fn with_name(name: &str, id: ArenaId) -> (r: Arena)
        ensures
            r@ == fresh_arena(id, upper_of(name@)),
            wf_arena(r@),
    {
        let r = Arena {
            id,
            name: uppercase(name),
            width: ARENA_WIDTH,
            height: ARENA_HEIGHT,
            max_players: ARENA_MAX_PLAYERS,
            started: None,
            winner: None,
            players: Vec::new(),
            lightcycles: Vec::new(),
            lightribbons: Vec::new(),
            updates: Vec::new(),
            updates_applied_so_far: 0,
        };
        proof {
            assert(r@ =~= fresh_arena(id, upper_of(name@)));
        }
        r
    }

    /// Translate an intent into events and append them to the log; the
    /// folded state changes only at the next fold.
    pub fn process_input(
        &mut self,
        player_id: PlayerId,
        input_event: ArenaInput,
        now_ms: i64,
        rng: &mut GameRng,
    )
        requires
            0 <= now_ms <= NOW_LIMIT,
        ensures
            final(self)@ == append_updates(
                old(self)@,
                crate::input::input_updates_spec(
                    input_event,
                    old(self)@,
                    player_id,
                    now_ms,
                    old(rng).state,
                ).0,
            ),
            final(rng).state == crate::input::input_updates_spec(
                input_event,
                old(self)@,
                player_id,
                now_ms,
                old(rng).state,
            ).1,
    {
        let mut evs = input_event.process_into_updates(self, player_id, now_ms, rng);
        let ghost evs0 = evs@;
        let ghost out0 = self.updates@;
        self.updates.append(&mut evs);
        proof {
            crate::updates::lemma_updates_view_add(out0, evs0);
            assert(self@ =~= append_updates(
                old(self)@,
                crate::input::input_updates_spec(
                    input_event,
                    old(self)@,
                    player_id,
                    now_ms,
                    old(rng).state,
                ).0,
            ));
        }
    }

    /// A deep copy of this arena with the same mathematical value, for a
    /// full-state snapshot.
    pub fn snapshot(&self) -> (r: Arena)
        ensures
            r@ == self@,
    {
        let mut players: Vec<(PlayerId, Player)> = Vec::new();
        let mut i: usize = 0;
        while i < self.players.len()
            invariant
                i <= self.players@.len(),
                players@.len() == i,
                forall|j: int|
                    0 <= j < i ==> (#[trigger] players@[j]).0 == self.players@[j].0 && players@[j].1@
                        == self.players@[j].1@,
            decreases self.players@.len() - i,
        {
            let e = &self.players[i];
            players.push((e.0, e.1.duplicate()));
            i = i + 1;
        }
        let mut lightcycles: Vec<(PlayerId, Lightcycle)> = Vec::new();
        let mut i2: usize = 0;
        while i2 < self.lightcycles.len()
            invariant
                i2 <= self.lightcycles@.len(),
                lightcycles@ == self.lightcycles@.take(i2 as int),
            decreases self.lightcycles@.len() - i2,
        {
            lightcycles.push(self.lightcycles[i2]);
            i2 = i2 + 1;
            proof {
                assert(lightcycles@ =~= self.lightcycles@.take(i2 as int));
            }
        }
        let mut lightribbons: Vec<(PlayerId, Lightribbon)> = Vec::new();
        let mut i3: usize = 0;
        while i3 < self.lightribbons.len()
            invariant
                i3 <= self.lightribbons@.len(),
                lightribbons@.len() == i3,
                forall|j: int|
                    0 <= j < i3 ==> (#[trigger] lightribbons@[j]).0 == self.lightribbons@[j].0
                        && lightribbons@[j].1@ == self.lightribbons@[j].1@,
            decreases self.lightribbons@.len() - i3,
        {
            let e = &self.lightribbons[i3];
            lightribbons.push((e.0, e.1.duplicate()));
            i3 = i3 + 1;
        }
        let mut updates: Vec<ArenaUpdate> = Vec::new();
        let mut i4: usize = 0;
        while i4 < self.updates.len()
            invariant
                i4 <= self.updates@.len(),
                updates@.len() == i4,
                forall|j: int| 0 <= j < i4 ==> (#[trigger] updates@[j])@ == self.updates@[j]@,
            decreases self.updates@.len() - i4,
        {
            updates.push(self.updates[i4].duplicate());
            i4 = i4 + 1;
        }
        let r = Arena {
            id: self.id,
            name: self.name.clone(),
            width: self.width,
            height: self.height,
            max_players: self.max_players,
            started: self.started,
            winner: self.winner,
            players,
            lightcycles,
            lightribbons,
            updates,
            updates_applied_so_far: self.updates_applied_so_far,
        };
        proof {
            assert(players_model(r.players@) =~= players_model(self.players@));
            assert(ribbons_model(r.lightribbons@) =~= ribbons_model(self.lightribbons@));
            assert(updates_view(r.updates@) =~= updates_view(self.updates@));
            assert(self.lightcycles@.take(self.lightcycles@.len() as int) =~= self.lightcycles@);
            assert(r@ =~= self@);
        }
        r
    }
}

impl Default for Arena {
    /// A fresh, empty, stopped arena under a freshly generated id, with an
    /// empty name and the standard dimensions and seats.
    fn default() -> (r: Self)
        ensures
            r@ == (ArenaModel {
                id: r@.id,
                name: Seq::empty(),
                width: ARENA_WIDTH,
                height: ARENA_HEIGHT,
                max_players: ARENA_MAX_PLAYERS,
                started: None,
                winner: None,
                players: Seq::empty(),
                lightcycles: Seq::empty(),
                lightribbons: Seq::empty(),
                updates: Seq::empty(),
                applied: 0,
            }),
            wf_arena(r@),
    {
        let r = Arena {
            id: ArenaId::fresh(),
            name: String::new(),
            width: ARENA_WIDTH,
            height: ARENA_HEIGHT,
            max_players: ARENA_MAX_PLAYERS,
            started: None,
            winner: None,
            players: Vec::new(),
            lightcycles: Vec::new(),
            lightribbons: Vec::new(),
            updates: Vec::new(),
            updates_applied_so_far: 0,
        };
        proof {
            assert(r@ =~= (ArenaModel {
                id: r.id,
                name: r.name@,
                width: ARENA_WIDTH,
                height: ARENA_HEIGHT,
                max_players: ARENA_MAX_PLAYERS,
                started: None,
                winner: None,
                players: Seq::empty(),
                lightcycles: Seq::empty(),
                lightribbons: Seq::empty(),
                updates: Seq::empty(),
                applied: 0,
            }));
        }
        r
    }
}

/// The mathematical value of an arena overview.
#[verifier::ext_equal]
pub struct ArenaOverviewModel {
    pub id: ArenaId,
    pub name: Seq<char>,
    pub max_players: usize,
    pub started: Option<i64>,
    pub players: Seq<(PlayerId, PlayerModel)>,
}

/// An overview of an arena for the lobby view: no vehicle or trail detail.
#[derive(Debug)]
pub struct ArenaOverview {
    pub id: ArenaId,
    pub name: String,
    pub max_players: usize,
    pub started: Option<i64>,
    pub players: Vec<(PlayerId, Player)>,
}

impl View for ArenaOverview {
    type V = ArenaOverviewModel;

    open spec fn view(&self) -> ArenaOverviewModel {
        ArenaOverviewModel {
            id: self.id,
            name: self.name@,
            max_players: self.max_players,
            started: self.started,
            players: players_model(self.players@),
        }
    }
}

/// What an arena looks like from the lobby.
pub open spec fn overview_of(a: ArenaModel) -> ArenaOverviewModel {
    ArenaOverviewModel {
        id: a.id,
        name: a.name,
        max_players: a.max_players,
        started: a.started,
        players: a.players,
    }
}

impl ArenaOverview {
    /// The overview of the given arena.
    pub fn from(arena: &Arena) -> (r: ArenaOverview)
        ensures
            r@ == overview_of(arena@),
    {
        let mut players: Vec<(PlayerId, Player)> = Vec::new();
        let mut i: usize = 0;
        while i < arena.players.len()
            invariant
                i <= arena.players@.len(),
                players@.len() == i,
                forall|j: int|
                    0 <= j < i ==> (#[trigger] players@[j]).0 == arena.players@[j].0 && players@[j].1@
                        == arena.players@[j].1@,
            decreases arena.players@.len() - i,
        {
            let e = &arena.players[i];
            players.push((e.0, e.1.duplicate()));
            i = i + 1;
        }
        let r = ArenaOverview {
            id: arena.id,
            name: arena.name.clone(),
            max_players: arena.max_players,
            started: arena.started,
            players,
        };
        proof {
            assert(players_model(r.players@) =~= players_model(arena.players@));
            assert(r@ =~= overview_of(arena@));
        }
        r
    }
}


/// No event in the sequence sets or clears the winner.
pub open spec fn no_winner_events(evs: Seq<UpdateModel>) -> bool {
    forall|i: int| 0 <= i < evs.len() ==> !((#[trigger] evs[i]) is SetWinner)
}

/// Applying any event but a winner event leaves the winner alone.
proof fn lemma_apply_keeps_winner(u: UpdateModel, a: ArenaModel)
    requires
        !(u is SetWinner),
    ensures
        apply_spec(u, a).winner == a.winner,
{
}

/// Folding a log whose pending suffix holds no winner event leaves the
/// winner alone.
proof fn lemma_fold_keeps_winner(a: ArenaModel)
    requires
        0 <= a.applied <= a.updates.len(),
        forall|i: int| a.applied <= i < a.updates.len() ==> !((#[trigger] a.updates[i]) is SetWinner),
    ensures
        fold_all(a).winner == a.winner,
    decreases a.updates.len() - a.applied,
{
    if a.applied < a.updates.len() {
        lemma_apply_keeps_winner(a.updates[a.applied], a);
        lemma_fold_keeps_winner(fold_step(a));
    }
}

/// The movement phase emits no winner event.
proof fn lemma_move_events_no_winner(cs: Seq<(PlayerId, Lightcycle)>, delta: i64, k: int)
    ensures
        no_winner_events(move_events_upto(cs, delta, k)),
    decreases k,
{
    if k > 0 {
        lemma_move_events_no_winner(cs, delta, k - 1);
    }
}

/// The collision phase emits no winner event.
proof fn lemma_collision_events_no_winner(a: ArenaModel, delta: i64, k: int)
    ensures
        no_winner_events(collision_events_upto(a, delta, k)),
    decreases k,
{
    if k > 0 {
        lemma_collision_events_no_winner(a, delta, k - 1);
    }
}

/// The trail phase emits no winner event.
proof fn lemma_ribbon_events_no_winner(a: ArenaModel, k: int)
    ensures
        no_winner_events(ribbon_tick_events_upto(a, k)),
    decreases k,
{
    if k > 0 {
        lemma_ribbon_events_no_winner(a, k - 1);
    }
}

/// Folding freshly appended events touches exactly those events.
proof fn lemma_append_suffix(a: ArenaModel, evs: Seq<UpdateModel>)
    requires
        a.applied == a.updates.len(),
        no_winner_events(evs),
    ensures
        fold_all(append_updates(a, evs)).winner == a.winner,
        fold_all(append_updates(a, evs)).applied == fold_all(append_updates(a, evs)).updates.len(),
{
    let b = append_updates(a, evs);
    assert forall|i: int| b.applied <= i < b.updates.len() implies !((#[trigger] b.updates[i])
        is SetWinner) by {
        assert(b.updates[i] == evs[i - a.updates.len()]);
    }
    lemma_fold_keeps_winner(b);
    lemma_fold_all_caught_up(b);
}

/// Win uniqueness over a whole tick: once a winner stands and no input
/// events are pending, a simulation tick never changes or clears it - the
/// win phase stays silent and no other phase speaks of the winner.
pub proof fn lemma_winner_stays(a: ArenaModel, delta: i64, now: i64)
    requires
        0 <= a.applied,
        a.applied == a.updates.len(),
        a.winner is Some,
    ensures
        tick_spec(a, delta, now).winner == a.winner,
{
    let a1 = fold_all(a);
    assert(a1 == a);
    match a1.started {
        None => {},
        Some(started) => {
            if now >= started {
                lemma_move_events_no_winner(a1.lightcycles, delta, a1.lightcycles.len() as int);
                lemma_append_suffix(a1, move_events(a1, delta));
                let a2 = fold_all(append_updates(a1, move_events(a1, delta)));
                lemma_collision_events_no_winner(a2, delta, a2.lightcycles.len() as int);
                lemma_append_suffix(a2, collision_events(a2, delta));
                let a3 = fold_all(append_updates(a2, collision_events(a2, delta)));
                lemma_ribbon_events_no_winner(a3, a3.lightribbons.len() as int);
                lemma_append_suffix(a3, ribbon_tick_events(a3));
                let a4 = fold_all(append_updates(a3, ribbon_tick_events(a3)));
                assert(win_events(a4) == Seq::<UpdateModel>::empty());
                lemma_append_suffix(a4, win_events(a4));
                let a5 = fold_all(append_updates(a4, win_events(a4)));
                assert(no_winner_events(end_events(a5)));
                lemma_append_suffix(a5, end_events(a5));
            }
        },
    }
}


/// Folding freshly appended events leaves the log itself alone: it is the
/// old log plus the appended events, and the arena ends caught up.
pub proof fn lemma_append_fold_log(a: ArenaModel, evs: Seq<UpdateModel>)
    requires
        0 <= a.applied,
        a.applied == a.updates.len(),
    ensures
        fold_all(append_updates(a, evs)).updates == a.updates + evs,
        fold_all(append_updates(a, evs)).applied == fold_all(append_updates(a, evs)).updates.len(),
{
    lemma_fold_all_caught_up(append_updates(a, evs));
}

/// A simulation tick never shortens the update log: replication cursors
/// into it stay valid.
pub proof fn lemma_tick_grows_log(a: ArenaModel, delta: i64, now: i64)
    requires
        0 <= a.applied <= a.updates.len(),
    ensures
        tick_spec(a, delta, now).updates.len() >= a.updates.len(),
{
    lemma_fold_all_caught_up(a);
    let a1 = fold_all(a);
    match a1.started {
        None => {},
        Some(started) => {
            if now >= started {
                lemma_append_fold_log(a1, move_events(a1, delta));
                let a2 = fold_all(append_updates(a1, move_events(a1, delta)));
                lemma_append_fold_log(a2, collision_events(a2, delta));
                let a3 = fold_all(append_updates(a2, collision_events(a2, delta)));
                lemma_append_fold_log(a3, ribbon_tick_events(a3));
                let a4 = fold_all(append_updates(a3, ribbon_tick_events(a3)));
                lemma_append_fold_log(a4, win_events(a4));
                let a5 = fold_all(append_updates(a4, win_events(a4)));
                lemma_append_fold_log(a5, end_events(a5));
            }
        },
    }
}

/// Determinism: the whole simulation is a function of its inputs. Two
/// arenas in equal states, fed the same intent by the same player at the
/// same time with the same generator state, queue identical event logs;
/// and one tick of equal length at the same clock yields identical states,
/// logs included. Together with the contracts of `process_input` and
/// `update`, which pin their results to these functions, two runs over an
/// identical input sequence and seed produce identical logs.
pub proof fn lemma_determinism(
    a1: ArenaModel,
    a2: ArenaModel,
    input: ArenaInput,
    pid: PlayerId,
    now: i64,
    rs: u64,
    delta: i64,
)
    requires
        a1 == a2,
    ensures
        crate::input::input_updates_spec(input, a1, pid, now, rs)
            == crate::input::input_updates_spec(input, a2, pid, now, rs),
        tick_spec(a1, delta, now) == tick_spec(a2, delta, now),
{
}

/// A reversal is refused outright: a turn into the exact opposite of the
/// vehicle's current direction queues no event and draws no randomness, so
/// the arena - its trails and the vehicle's direction included - is left
/// exactly as it was.
pub proof fn lemma_no_reverse(a: ArenaModel, pid: PlayerId, d: Direction, now: i64, rs: u64)
    requires
        crate::assoc::al_contains(a.lightcycles, pid),
        crate::primitives::opposite(crate::assoc::al_get(a.lightcycles, pid).direction, d),
    ensures
        crate::input::input_updates_spec(ArenaInput::Turn(d), a, pid, now, rs).0
            == Seq::<UpdateModel>::empty(),
        crate::input::input_updates_spec(ArenaInput::Turn(d), a, pid, now, rs).1 == rs,
        append_updates(
            a,
            crate::input::input_updates_spec(ArenaInput::Turn(d), a, pid, now, rs).0,
        ) == a,
{
    assert(a.updates + Seq::<UpdateModel>::empty() =~= a.updates);
    assert(append_updates(
        a,
        crate::input::input_updates_spec(ArenaInput::Turn(d), a, pid, now, rs).0,
    ) =~= a);
}

/// The winner is set at most once per round, and only at the right moment:
/// the win phase queues nothing once a winner stands, and it queues a
/// winner only in a round of at least two vehicles of which exactly one is
/// alive - that one's player, alive at that very moment.
pub proof fn lemma_win_uniqueness(a: ArenaModel)
    ensures
        a.winner is Some ==> win_events(a) == Seq::<UpdateModel>::empty(),
        win_events(a).len() > 0 ==> {
            &&& a.winner is None
            &&& a.lightcycles.len() >= 2
            &&& alive_count(a.lightcycles, a.lightcycles.len() as int) == 1
            &&& 0 <= first_alive_idx(a.lightcycles) < a.lightcycles.len()
            &&& !a.lightcycles[first_alive_idx(a.lightcycles)].1.dead
            &&& win_events(a) == seq![
                UpdateModel::SetWinner(Some(a.lightcycles[first_alive_idx(a.lightcycles)].0)),
            ]
        },
{
    lemma_first_alive_idx(a.lightcycles);
    if !(a.winner is Some) && a.lightcycles.len() > 1 && alive_count(
        a.lightcycles,
        a.lightcycles.len() as int,
    ) == 1 {
        if first_alive_idx(a.lightcycles) == -1 {
            lemma_alive_count_of_dead(a.lightcycles, a.lightcycles.len() as int);
        }
    }
}

/// With every vehicle among the first `k` dead, none counts as alive.
pub proof fn lemma_alive_count_of_dead(cs: Seq<(PlayerId, Lightcycle)>, k: int)
    requires
        0 <= k <= cs.len(),
        forall|j: int| 0 <= j < cs.len() ==> (#[trigger] cs[j]).1.dead,
    ensures
        alive_count(cs, k) == 0,
    decreases k,
{
    if k > 0 {
        lemma_alive_count_of_dead(cs, k - 1);
    }
}

} // verus!
