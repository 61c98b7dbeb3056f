//! Spawn-point allocation and AI-opponent selection.
//!
//! Both draw from the arena's seeded generator: spawn points are sampled
//! without replacement from eight fixed candidates around the center, and
//! AI opponents are drawn from a fixed pool, removing each pick and its
//! incompatible partner from the remaining pool.

use vstd::prelude::*;

use crate::primitives::{Direction, Player, PlayerColor, PlayerId, PlayerModel, Point};
use crate::rng::{rng_next, GameRng};

verus! {

/// Number of fixed spawn candidates.
pub const SPAWNPOINT_COUNT: usize = 8;

/// Most AI opponents a round will add beside a lone human.
pub const MAX_AI_PLAYERS: usize = 4;

/// Number of entries in the AI name pool.
pub const AI_POOL_SIZE: usize = 23;

/// The fixed spawn candidates: position and initial direction, symmetric
/// around the arena center.
pub open spec fn spawn_candidate(i: usize) -> (Point, Direction) {
    if i == 0 {
        (Point { x: 280_000, y: 140_000 }, Direction::Up)
    } else if i == 1 {
        (Point { x: 280_000, y: 420_000 }, Direction::Down)
    } else if i == 2 {
        (Point { x: 140_000, y: 280_000 }, Direction::Right)
    } else if i == 3 {
        (Point { x: 420_000, y: 280_000 }, Direction::Left)
    } else if i == 4 {
        (Point { x: 140_000, y: 140_000 }, Direction::Right)
    } else if i == 5 {
        (Point { x: 140_000, y: 420_000 }, Direction::Right)
    } else if i == 6 {
        (Point { x: 420_000, y: 140_000 }, Direction::Left)
    } else {
        (Point { x: 420_000, y: 420_000 }, Direction::Left)
    }
}

/// The spawn candidate at `i`, executable form.
pub fn spawn_candidate_at(i: usize) -> (r: (Point, Direction))
    ensures
        r == spawn_candidate(i),
{
    if i == 0 {
        (Point { x: 280_000, y: 140_000 }, Direction::Up)
    } else if i == 1 {
        (Point { x: 280_000, y: 420_000 }, Direction::Down)
    } else if i == 2 {
        (Point { x: 140_000, y: 280_000 }, Direction::Right)
    } else if i == 3 {
        (Point { x: 420_000, y: 280_000 }, Direction::Left)
    } else if i == 4 {
        (Point { x: 140_000, y: 140_000 }, Direction::Right)
    } else if i == 5 {
        (Point { x: 140_000, y: 420_000 }, Direction::Right)
    } else if i == 6 {
        (Point { x: 420_000, y: 140_000 }, Direction::Left)
    } else {
        (Point { x: 420_000, y: 420_000 }, Direction::Left)
    }
}

/// Assign each participant an unused spawn candidate, drawn from the
/// remaining ones by the generator; participants beyond the candidate
/// count get nothing.
pub open spec fn spawn_assign(ids: Seq<PlayerId>, avail: Seq<usize>, rs: u64) -> (
    Seq<(PlayerId, Point, Direction)>,
    u64,
)
    decreases ids.len(),
{
    if ids.len() == 0 || avail.len() == 0 {
        (Seq::empty(), rs)
    } else {
        let r = rng_next(rs);
        let j = (r % (avail.len() as u64)) as int;
        let c = spawn_candidate(avail[j]);
        let rest = spawn_assign(ids.drop_first(), avail.remove(j), r);
        (seq![(ids[0], c.0, c.1)] + rest.0, rest.1)
    }
}

/// The candidate indices still unused at the start of a round.
pub open spec fn all_spawn_candidates() -> Seq<usize> {
    seq![0usize, 1, 2, 3, 4, 5, 6, 7]
}

/// The spawn assignment for a round: every participant in order, drawing
/// from the eight candidates.
pub open spec fn spawnpoints_spec(ids: Seq<PlayerId>, rs: u64) -> (
    Seq<(PlayerId, Point, Direction)>,
    u64,
) {
    spawn_assign(ids, all_spawn_candidates(), rs)
}

/// Compute the spawn points for the given participants, as
/// `spawnpoints_spec` says.
pub fn calculate_spawnpoints(player_ids: Vec<PlayerId>, rng: &mut GameRng) -> (r: Vec<
    (PlayerId, Point, Direction),
>)
    ensures
        r@ == spawnpoints_spec(player_ids@, old(rng).state).0,
        final(rng).state == spawnpoints_spec(player_ids@, old(rng).state).1,
{
    let mut avail: Vec<usize> = Vec::new();
    avail.push(0);
    avail.push(1);
    avail.push(2);
    avail.push(3);
    avail.push(4);
    avail.push(5);
    avail.push(6);
    avail.push(7);
    proof {
        assert(avail@ =~= all_spawn_candidates());
    }
    let mut out: Vec<(PlayerId, Point, Direction)> = Vec::new();
    let mut k: usize = 0;
    proof {
        assert(player_ids@.skip(0) =~= player_ids@);
        assert(out@ + spawnpoints_spec(player_ids@, old(rng).state).0 =~= spawnpoints_spec(
            player_ids@,
            old(rng).state,
        ).0);
    }
    while k < player_ids.len() && avail.len() > 0
        invariant
            k <= player_ids@.len(),
            spawnpoints_spec(player_ids@, old(rng).state).0 == out@ + spawn_assign(
                player_ids@.skip(k as int),
                avail@,
                rng.state,
            ).0,
            spawnpoints_spec(player_ids@, old(rng).state).1 == spawn_assign(
                player_ids@.skip(k as int),
                avail@,
                rng.state,
            ).1,
        decreases player_ids@.len() - k,
    {
        let ghost pre_ids = player_ids@.skip(k as int);
        let ghost pre_avail = avail@;
        let ghost pre_rs = rng.state;
        let ghost out0 = out@;
        let r = rng.next_u64();
        let j = (r % (avail.len() as u64)) as usize;
        let idx = avail[j];
        avail.remove(j);
        let cand = spawn_candidate_at(idx);
        out.push((player_ids[k], cand.0, cand.1));
        k = k + 1;
        proof {
            assert(pre_ids.drop_first() =~= player_ids@.skip(k as int));
            let e = (player_ids@[k - 1], cand.0, cand.1);
            let rest = spawn_assign(player_ids@.skip(k as int), avail@, rng.state).0;
            assert(spawn_assign(pre_ids, pre_avail, pre_rs).0 == seq![e] + rest);
            assert(out0 + (seq![e] + rest) =~= out0.push(e) + rest);
        }
    }
    proof {
        if k >= player_ids@.len() {
            assert(player_ids@.skip(k as int) =~= Seq::<PlayerId>::empty());
        }
        assert(spawnpoints_spec(player_ids@, old(rng).state).0 =~= out@);
    }
    out
}

/// The fixed AI pool: the display name of entry `i`.
pub open spec fn pool_name(i: usize) -> Seq<char> {
    if i == 0 { "AI_ABRAXAS"@ }
    else if i == 1 { "AI_ANON"@ }
    else if i == 2 { "AI_BARTOK"@ }
    else if i == 3 { "AI_BECK"@ }
    else if i == 4 { "AI_CASTOR"@ }
    else if i == 5 { "AI_CLU"@ }
    else if i == 6 { "AI_CLU_2.0"@ }
    else if i == 7 { "AI_CROM"@ }
    else if i == 8 { "AI_DUMONT"@ }
    else if i == 9 { "AI_DYSON"@ }
    else if i == 10 { "AI_GEM"@ }
    else if i == 11 { "AI_ISO_Q"@ }
    else if i == 12 { "AI_JARVIS"@ }
    else if i == 13 { "AI_JET"@ }
    else if i == 14 { "AI_MCP"@ }
    else if i == 15 { "AI_MERCURY"@ }
    else if i == 16 { "AI_RAM"@ }
    else if i == 17 { "AI_RINZLER"@ }
    else if i == 18 { "AI_SARK"@ }
    else if i == 19 { "AI_TESLER"@ }
    else if i == 20 { "AI_TRON"@ }
    else if i == 21 { "AI_YORI"@ }
    else { "AI_ZUSE"@ }
}

/// The fixed AI pool: the color of entry `i`.
pub open spec fn pool_color(i: usize) -> PlayerColor {
    if i == 0 { PlayerColor::Green }
    else if i == 1 { PlayerColor::White }
    else if i == 2 { PlayerColor::Blue }
    else if i == 3 { PlayerColor::White }
    else if i == 4 { PlayerColor::White }
    else if i == 5 { PlayerColor::Orange }
    else if i == 6 { PlayerColor::Orange }
    else if i == 7 { PlayerColor::Blue }
    else if i == 8 { PlayerColor::Purple }
    else if i == 9 { PlayerColor::Red }
    else if i == 10 { PlayerColor::White }
    else if i == 11 { PlayerColor::White }
    else if i == 12 { PlayerColor::Red }
    else if i == 13 { PlayerColor::White }
    else if i == 14 { PlayerColor::Orange }
    else if i == 15 { PlayerColor::Blue }
    else if i == 16 { PlayerColor::Blue }
    else if i == 17 { PlayerColor::Red }
    else if i == 18 { PlayerColor::Red }
    else if i == 19 { PlayerColor::Red }
    else if i == 20 { PlayerColor::Blue }
    else if i == 21 { PlayerColor::Blue }
    else { PlayerColor::White }
}

/// The pool entry at `i`: its name and color, executable form.
pub fn pool_entry(i: usize) -> (r: (String, PlayerColor))
    ensures
        r.0@ == pool_name(i),
        r.1 == pool_color(i),
{
    if i == 0 { (String::from_str("AI_ABRAXAS"), PlayerColor::Green) }
    else if i == 1 { (String::from_str("AI_ANON"), PlayerColor::White) }
    else if i == 2 { (String::from_str("AI_BARTOK"), PlayerColor::Blue) }
    else if i == 3 { (String::from_str("AI_BECK"), PlayerColor::White) }
    else if i == 4 { (String::from_str("AI_CASTOR"), PlayerColor::White) }
    else if i == 5 { (String::from_str("AI_CLU"), PlayerColor::Orange) }
    else if i == 6 { (String::from_str("AI_CLU_2.0"), PlayerColor::Orange) }
    else if i == 7 { (String::from_str("AI_CROM"), PlayerColor::Blue) }
    else if i == 8 { (String::from_str("AI_DUMONT"), PlayerColor::Purple) }
    else if i == 9 { (String::from_str("AI_DYSON"), PlayerColor::Red) }
    else if i == 10 { (String::from_str("AI_GEM"), PlayerColor::White) }
    else if i == 11 { (String::from_str("AI_ISO_Q"), PlayerColor::White) }
    else if i == 12 { (String::from_str("AI_JARVIS"), PlayerColor::Red) }
    else if i == 13 { (String::from_str("AI_JET"), PlayerColor::White) }
    else if i == 14 { (String::from_str("AI_MCP"), PlayerColor::Orange) }
    else if i == 15 { (String::from_str("AI_MERCURY"), PlayerColor::Blue) }
    else if i == 16 { (String::from_str("AI_RAM"), PlayerColor::Blue) }
    else if i == 17 { (String::from_str("AI_RINZLER"), PlayerColor::Red) }
    else if i == 18 { (String::from_str("AI_SARK"), PlayerColor::Red) }
    else if i == 19 { (String::from_str("AI_TESLER"), PlayerColor::Red) }
    else if i == 20 { (String::from_str("AI_TRON"), PlayerColor::Blue) }
    else if i == 21 { (String::from_str("AI_YORI"), PlayerColor::Blue) }
    else { (String::from_str("AI_ZUSE"), PlayerColor::White) }
}

/// Pool entries that may not appear in the same round.
pub open spec fn incompatible(a: usize, b: usize) -> bool {
    ||| (a == 4 && b == 22)
    ||| (a == 22 && b == 4)
    ||| (a == 5 && b == 6)
    ||| (a == 6 && b == 5)
    ||| (a == 17 && b == 20)
    ||| (a == 20 && b == 17)
}

/// Whether `a` and `b` may not appear together, executable form.
pub fn incompatible_entries(a: usize, b: usize) -> (r: bool)
    ensures
        r == incompatible(a, b),
{
    (a == 4 && b == 22) || (a == 22 && b == 4) || (a == 5 && b == 6) || (a == 6 && b == 5) || (a
        == 17 && b == 20) || (a == 20 && b == 17)
}

/// The remaining pool after choosing `c`: everything incompatible with the
/// choice leaves, order kept.
pub open spec fn prune(rem: Seq<usize>, c: usize) -> Seq<usize>
    decreases rem.len(),
{
    if rem.len() == 0 {
        Seq::empty()
    } else if incompatible(rem[0], c) {
        prune(rem.drop_first(), c)
    } else {
        seq![rem[0]] + prune(rem.drop_first(), c)
    }
}

/// Drop the entries incompatible with `c`, as `prune` says.
pub fn prune_pool(rem: &Vec<usize>, c: usize) -> (r: Vec<usize>)
    ensures
        r@ == prune(rem@, c),
{
    let mut out: Vec<usize> = Vec::new();
    let mut i: usize = 0;
    proof {
        assert(rem@.skip(0) =~= rem@);
        assert(out@ + prune(rem@, c) =~= prune(rem@, c));
    }
    while i < rem.len()
        invariant
            i <= rem@.len(),
            prune(rem@, c) == out@ + prune(rem@.skip(i as int), c),
        decreases rem@.len() - i,
    {
        let ghost pre = rem@.skip(i as int);
        let ghost out0 = out@;
        let x = rem[i];
        if !incompatible_entries(x, c) {
            out.push(x);
        }
        i = i + 1;
        proof {
            assert(pre.drop_first() =~= rem@.skip(i as int));
            if !incompatible(x, c) {
                assert(prune(pre, c) == seq![x] + prune(rem@.skip(i as int), c));
                assert(out0 + (seq![x] + prune(rem@.skip(i as int), c)) =~= out0.push(x) + prune(
                    rem@.skip(i as int),
                    c,
                ));
            }
        }
    }
    proof {
        assert(rem@.skip(rem@.len() as int) =~= Seq::<usize>::empty());
        assert(prune(rem@, c) =~= out@);
    }
    out
}

/// The AI picks for a round: up to `q` pool entries, each drawn by the
/// generator from what remains, which then loses the pick and anything
/// incompatible with it. Each pick also draws its fresh player id.
pub open spec fn ai_select(q: int, rem: Seq<usize>, rs: u64) -> (Seq<(usize, PlayerId)>, u64)
    decreases q,
{
    if q <= 0 || rem.len() == 0 {
        (Seq::empty(), rs)
    } else {
        let r = rng_next(rs);
        let j = (r % (rem.len() as u64)) as int;
        let c = rem[j];
        let r1 = rng_next(r);
        let r2 = rng_next(r1);
        let id = PlayerId(((r1 as u128) << 64) | (r2 as u128));
        let rest = ai_select(q - 1, prune(rem.remove(j), c), r2);
        (seq![(c, id)] + rest.0, rest.1)
    }
}

/// The player record of an AI pick.
pub open spec fn ai_player_model(c: usize, id: PlayerId) -> PlayerModel {
    PlayerModel { id, name: pool_name(c), color: pool_color(c), is_ai: true }
}

/// The player records of a sequence of AI picks.
pub open spec fn picks_models(s: Seq<(usize, PlayerId)>) -> Seq<PlayerModel> {
    s.map_values(|p: (usize, PlayerId)| ai_player_model(p.0, p.1))
}

/// The mathematical values of a sequence of players.
pub open spec fn players_view(s: Seq<Player>) -> Seq<PlayerModel> {
    s.map_values(|p: Player| p@)
}

/// The whole initial pool, in order.
pub open spec fn all_pool_entries() -> Seq<usize> {
    seq![0usize, 1, 2, 3, 4, 5, 6, 7, 8, 9, 10, 11, 12, 13, 14, 15, 16, 17, 18, 19, 20, 21, 22]
}

/// The AI players a round adds, given the desired quantity and the
/// generator state.
pub open spec fn ai_players_spec(q: int, rs: u64) -> (Seq<PlayerModel>, u64) {
    let sel = ai_select(q, all_pool_entries(), rs);
    (picks_models(sel.0), sel.1)
}

/// How many AI opponents to add: none unless a lone human asked for the
/// round, else one to three, drawn by the generator.
pub open spec fn ai_quantity_spec(add_ai: bool, rs: u64) -> (int, u64) {
    if !add_ai {
        (0, rs)
    } else {
        ((rng_next(rs) % ((MAX_AI_PLAYERS - 1) as u64) + 1) as int, rng_next(rs))
    }
}

/// Decide how many AI opponents to add, as `ai_quantity_spec` says.
pub fn select_ai_quantity(add_ai: bool, rng: &mut GameRng) -> (r: usize)
    ensures
        r as int == ai_quantity_spec(add_ai, old(rng).state).0,
        final(rng).state == ai_quantity_spec(add_ai, old(rng).state).1,
{
    if !add_ai {
        return 0;
    }
    let r = rng.next_u64();
    ((r % ((MAX_AI_PLAYERS - 1) as u64)) + 1) as usize
}

/// Draw up to `quantity` AI players from the pool, as `ai_players_spec`
/// says: each pick removes itself and its incompatible partner from the
/// remaining pool, and the draw stops early if the pool empties.
pub fn select_ai_from_pool(quantity: usize, rng: &mut GameRng) -> (r: Vec<Player>)
    ensures
        players_view(r@) == ai_players_spec(quantity as int, old(rng).state).0,
        final(rng).state == ai_players_spec(quantity as int, old(rng).state).1,
{
    let mut rem: Vec<usize> = Vec::new();
    let mut c: usize = 0;
    while c < AI_POOL_SIZE
        invariant
            c <= AI_POOL_SIZE,
            rem@.len() == c,
            forall|j: int| 0 <= j < c ==> rem@[j] == j,
        decreases AI_POOL_SIZE - c,
    {
        rem.push(c);
        c = c + 1;
    }
    proof {
        assert(rem@ =~= all_pool_entries());
    }
    let mut out: Vec<Player> = Vec::new();
    let mut k: usize = 0;
    proof {
        assert(players_view(out@) =~= Seq::<PlayerModel>::empty());
        assert(players_view(out@) + ai_players_spec(quantity as int, old(rng).state).0
            =~= ai_players_spec(quantity as int, old(rng).state).0);
    }
    while k < quantity && rem.len() > 0
        invariant
            k <= quantity,
            ai_players_spec(quantity as int, old(rng).state).0 == players_view(out@)
                + picks_models(ai_select(quantity - k as int, rem@, rng.state).0),
            ai_players_spec(quantity as int, old(rng).state).1 == ai_select(
                quantity - k as int,
                rem@,
                rng.state,
            ).1,
        decreases quantity - k,
    {
        let ghost pre_rem = rem@;
        let ghost pre_rs = rng.state;
        let ghost out0 = out@;
        let r = rng.next_u64();
        let j = (r % (rem.len() as u64)) as usize;
        let chosen = rem[j];
        rem.remove(j);
        let r1 = rng.next_u64();
        let r2 = rng.next_u64();
        let id = PlayerId(((r1 as u128) << 64) | (r2 as u128));
        let pruned = prune_pool(&rem, chosen);
        rem = pruned;
        let entry = pool_entry(chosen);
        out.push(Player { id, name: entry.0, color: entry.1, is_ai: true });
        k = k + 1;
        proof {
            let sel0 = ai_select(quantity - (k - 1) as int, pre_rem, pre_rs);
            let sel1 = ai_select(quantity - k as int, rem@, rng.state);
            let e = ai_player_model(chosen, id);
            assert(sel0.0 == seq![(chosen, id)] + sel1.0);
            assert forall|i: int| 0 <= i < sel0.0.len() implies (picks_models(sel0.0))[i] == ((
            seq![e] + picks_models(sel1.0)))[i] by {
                if i == 0 {
                    assert(sel0.0[0] == (chosen, id));
                } else {
                    assert(sel0.0[i] == sel1.0[i - 1]);
                }
            }
            assert(picks_models(sel0.0) =~= seq![e] + picks_models(sel1.0));
            assert(out@[out@.len() - 1]@ == e);
            assert forall|i: int| 0 <= i < out@.len() implies (players_view(out@))[i] == (
            players_view(out0).push(e))[i] by {
                if i < out0.len() {
                    assert(out@[i] == out0[i]);
                }
            }
            assert(players_view(out@) =~= players_view(out0).push(e));
            assert(players_view(out0) + (seq![e] + picks_models(sel1.0)) =~= players_view(out@)
                + picks_models(sel1.0));
        }
    }
    proof {
        assert(ai_select(quantity - k as int, rem@, rng.state).0 =~= Seq::<
            (usize, PlayerId),
        >::empty());
        assert(picks_models(ai_select(quantity - k as int, rem@, rng.state).0) =~= Seq::<
            PlayerModel,
        >::empty());
        assert(ai_players_spec(quantity as int, old(rng).state).0 =~= players_view(out@));
    }
    out
}

} // verus!
