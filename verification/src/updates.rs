//! The update log's event type and its pure application function.
//!
//! An `ArenaUpdate` is an atomic, replayable state change; the log of
//! updates is both the simulation's history and the replication stream.
//! `apply_spec` is the one definition of what each event does; the
//! executable `apply` is proved to match it.

use vstd::prelude::*;

use crate::arena::{Arena, ArenaModel};
use crate::assoc::{
    al_contains, al_del, al_find, al_get, al_index_of, al_insert, al_put, al_remove,
    lemma_al_get_map, lemma_al_index_of, lemma_al_index_of_map, lemma_al_insert_unique, lemma_al_remove_unique,
    lemma_map_values_al_insert, lemma_map_values_al_remove,
};
use crate::entities::{Lightcycle, Lightribbon};
use crate::primitives::{Direction, Player, PlayerId, PlayerModel, Point};

verus! {

/// Largest coordinate magnitude an event may carry into the state.
pub const POINT_LIMIT: i64 = 200_000_000;

/// Largest vehicle speed an event may carry into the state.
pub const SPEED_LIMIT: i64 = 1_000_000;

/// A point within the engine's coordinate range.
pub open spec fn point_ok(p: Point) -> bool {
    -POINT_LIMIT <= p.x <= POINT_LIMIT && -POINT_LIMIT <= p.y <= POINT_LIMIT
}

/// A trail whose points are all within range.
pub open spec fn points_ok(pts: Seq<Point>) -> bool {
    forall|i: int| 0 <= i < pts.len() ==> point_ok(#[trigger] pts[i])
}

/// A vehicle whose position and speed are within range.
pub open spec fn lightcycle_ok(lc: Lightcycle) -> bool {
    point_ok(lc.position) && 0 <= lc.speed <= SPEED_LIMIT
}

/// One atomic state change of an arena.
#[derive(Debug, Clone, PartialEq)]
pub enum ArenaUpdate {
    AddPlayer(PlayerId, Player),
    AddLightcycle(PlayerId, Lightcycle),
    AddLightribbon(PlayerId, Lightribbon),
    Start(i64),
    End,
    SetWinner(Option<PlayerId>),
    UpdateLightcyclePosition(PlayerId, Point),
    UpdateLightcycleDirection(PlayerId, Direction),
    UpdateLightcycleApplyDeath(PlayerId),
    UpdateLightribbonAppendPoint(PlayerId, Point),
    UpdateLightribbonReplaceLatestPoint(PlayerId, Point),
    RemovePlayer(PlayerId),
    RemoveLightcycle(PlayerId),
    RemoveLightribbon(PlayerId),
}

/// The mathematical value of an update.
#[verifier::ext_equal]
pub enum UpdateModel {
    AddPlayer(PlayerId, PlayerModel),
    AddLightcycle(PlayerId, Lightcycle),
    AddLightribbon(PlayerId, Seq<Point>),
    Start(i64),
    End,
    SetWinner(Option<PlayerId>),
    UpdateLightcyclePosition(PlayerId, Point),
    UpdateLightcycleDirection(PlayerId, Direction),
    UpdateLightcycleApplyDeath(PlayerId),
    UpdateLightribbonAppendPoint(PlayerId, Point),
    UpdateLightribbonReplaceLatestPoint(PlayerId, Point),
    RemovePlayer(PlayerId),
    RemoveLightcycle(PlayerId),
    RemoveLightribbon(PlayerId),
}

/// The mathematical values of a sequence of updates.
pub open spec fn updates_view(s: Seq<ArenaUpdate>) -> Seq<UpdateModel> {
    s.map_values(|u: ArenaUpdate| u@)
}

/// The view of a log with one more event is the view plus that event's.
pub proof fn lemma_updates_view_push(s: Seq<ArenaUpdate>, x: ArenaUpdate)
    ensures
        updates_view(s.push(x)) =~= updates_view(s).push(x@),
{
    assert forall|j: int| 0 <= j < s.len() + 1 implies (updates_view(s.push(x)))[j] == (
    updates_view(s).push(x@))[j] by {
        if j < s.len() {
            assert(s.push(x)[j] == s[j]);
        } else {
            assert(s.push(x)[j] == x);
        }
    }
}

/// The view of two logs laid end to end is the views laid end to end.
pub proof fn lemma_updates_view_add(s: Seq<ArenaUpdate>, t: Seq<ArenaUpdate>)
    ensures
        updates_view(s + t) =~= updates_view(s) + updates_view(t),
{
    assert forall|j: int| 0 <= j < s.len() + t.len() implies (updates_view(s + t))[j] == (
    updates_view(s) + updates_view(t))[j] by {
        if j < s.len() {
            assert((s + t)[j] == s[j]);
        } else {
            assert((s + t)[j] == t[j - s.len()]);
        }
    }
}

impl View for ArenaUpdate {
    type V = UpdateModel;

    open spec fn view(&self) -> UpdateModel {
        match self {
            ArenaUpdate::AddPlayer(id, p) => UpdateModel::AddPlayer(*id, p@),
            ArenaUpdate::AddLightcycle(id, lc) => UpdateModel::AddLightcycle(*id, *lc),
            ArenaUpdate::AddLightribbon(id, r) => UpdateModel::AddLightribbon(*id, r@),
            ArenaUpdate::Start(at) => UpdateModel::Start(*at),
            ArenaUpdate::End => UpdateModel::End,
            ArenaUpdate::SetWinner(w) => UpdateModel::SetWinner(*w),
            ArenaUpdate::UpdateLightcyclePosition(id, p) => UpdateModel::UpdateLightcyclePosition(
                *id,
                *p,
            ),
            ArenaUpdate::UpdateLightcycleDirection(id, d) => UpdateModel::UpdateLightcycleDirection(
                *id,
                *d,
            ),
            ArenaUpdate::UpdateLightcycleApplyDeath(id) => UpdateModel::UpdateLightcycleApplyDeath(
                *id,
            ),
            ArenaUpdate::UpdateLightribbonAppendPoint(id, p) => {
                UpdateModel::UpdateLightribbonAppendPoint(*id, *p)
            },
            ArenaUpdate::UpdateLightribbonReplaceLatestPoint(id, p) => {
                UpdateModel::UpdateLightribbonReplaceLatestPoint(*id, *p)
            },
            ArenaUpdate::RemovePlayer(id) => UpdateModel::RemovePlayer(*id),
            ArenaUpdate::RemoveLightcycle(id) => UpdateModel::RemoveLightcycle(*id),
            ArenaUpdate::RemoveLightribbon(id) => UpdateModel::RemoveLightribbon(*id),
        }
    }
}

impl ArenaUpdate {
    /// A copy of this update with the same mathematical value.
    pub fn duplicate(&self) -> (r: ArenaUpdate)
        ensures
            r@ == self@,
    {
        match self {
            ArenaUpdate::AddPlayer(id, p) => ArenaUpdate::AddPlayer(*id, p.duplicate()),
            ArenaUpdate::AddLightcycle(id, lc) => ArenaUpdate::AddLightcycle(*id, *lc),
            ArenaUpdate::AddLightribbon(id, r) => ArenaUpdate::AddLightribbon(*id, r.duplicate()),
            ArenaUpdate::Start(at) => ArenaUpdate::Start(*at),
            ArenaUpdate::End => ArenaUpdate::End,
            ArenaUpdate::SetWinner(w) => ArenaUpdate::SetWinner(*w),
            ArenaUpdate::UpdateLightcyclePosition(id, p) => ArenaUpdate::UpdateLightcyclePosition(
                *id,
                *p,
            ),
            ArenaUpdate::UpdateLightcycleDirection(id, d) => ArenaUpdate::UpdateLightcycleDirection(
                *id,
                *d,
            ),
            ArenaUpdate::UpdateLightcycleApplyDeath(id) => ArenaUpdate::UpdateLightcycleApplyDeath(
                *id,
            ),
            ArenaUpdate::UpdateLightribbonAppendPoint(id, p) => {
                ArenaUpdate::UpdateLightribbonAppendPoint(*id, *p)
            },
            ArenaUpdate::UpdateLightribbonReplaceLatestPoint(id, p) => {
                ArenaUpdate::UpdateLightribbonReplaceLatestPoint(*id, *p)
            },
            ArenaUpdate::RemovePlayer(id) => ArenaUpdate::RemovePlayer(*id),
            ArenaUpdate::RemoveLightcycle(id) => ArenaUpdate::RemoveLightcycle(*id),
            ArenaUpdate::RemoveLightribbon(id) => ArenaUpdate::RemoveLightribbon(*id),
        }
    }
}

impl ArenaUpdate {
    /// Fold this one event into the arena's folded fields, as `apply_spec`
    /// says: events that name an unknown vehicle or trail, or that carry an
    /// out-of-range point or speed, change nothing.
    pub fn apply(&self, arena: &mut Arena)
        ensures
            final(arena)@ == apply_spec(self@, old(arena)@),
    {
        let ghost f_p = |e: (PlayerId, Player)| (e.0, e.1@);
        let ghost f_r = |e: (PlayerId, Lightribbon)| (e.0, e.1@);
        match self {
            ArenaUpdate::AddPlayer(id, p) => {
                let dup = p.duplicate();
                proof {
                    lemma_map_values_al_insert(old(arena).players@, *id, dup, f_p);
                }
                al_put(&mut arena.players, *id, dup);
            },
            ArenaUpdate::AddLightcycle(id, lc) => {
                if -POINT_LIMIT <= lc.position.x && lc.position.x <= POINT_LIMIT && -POINT_LIMIT
                    <= lc.position.y && lc.position.y <= POINT_LIMIT && 0 <= lc.speed && lc.speed
                    <= SPEED_LIMIT {
                    al_put(&mut arena.lightcycles, *id, *lc);
                }
            },
            ArenaUpdate::AddLightribbon(id, r) => {
                if all_points_ok(&r.points) {
                    let dup = r.duplicate();
                    proof {
                        lemma_map_values_al_insert(old(arena).lightribbons@, *id, dup, f_r);
                    }
                    al_put(&mut arena.lightribbons, *id, dup);
                }
            },
            ArenaUpdate::Start(at) => {
                arena.started = Some(*at);
            },
            ArenaUpdate::End => {
                arena.started = None;
                arena.lightcycles.clear();
                arena.lightribbons.clear();
            },
            ArenaUpdate::SetWinner(w) => {
                arena.winner = *w;
            },
            ArenaUpdate::UpdateLightcyclePosition(id, p) => {
                if -POINT_LIMIT <= p.x && p.x <= POINT_LIMIT && -POINT_LIMIT <= p.y && p.y
                    <= POINT_LIMIT {
                    match al_find(&arena.lightcycles, *id) {
                        Some(i) => {
                            proof {
                                lemma_al_index_of(old(arena).lightcycles@, *id);
                            }
                            let entry = &mut arena.lightcycles[i];
                            entry.1.position = *p;
                        },
                        None => {},
                    }
                }
            },
            ArenaUpdate::UpdateLightcycleDirection(id, d) => {
                match al_find(&arena.lightcycles, *id) {
                    Some(i) => {
                        proof {
                            lemma_al_index_of(old(arena).lightcycles@, *id);
                        }
                        let entry = &mut arena.lightcycles[i];
                        entry.1.direction = *d;
                    },
                    None => {},
                }
            },
            ArenaUpdate::UpdateLightcycleApplyDeath(id) => {
                match al_find(&arena.lightcycles, *id) {
                    Some(i) => {
                        proof {
                            lemma_al_index_of(old(arena).lightcycles@, *id);
                        }
                        let entry = &mut arena.lightcycles[i];
                        entry.1.dead = true;
                    },
                    None => {},
                }
            },
            ArenaUpdate::UpdateLightribbonAppendPoint(id, p) => {
                proof {
                    lemma_al_index_of_map(old(arena).lightribbons@, *id, f_r);
                }
                if -POINT_LIMIT <= p.x && p.x <= POINT_LIMIT && -POINT_LIMIT <= p.y && p.y
                    <= POINT_LIMIT {
                    match al_find(&arena.lightribbons, *id) {
                        Some(i) => {
                            proof {
                                lemma_al_index_of(old(arena).lightribbons@, *id);
                                lemma_al_get_map(old(arena).lightribbons@, *id, f_r);
                            }
                            let entry = &mut arena.lightribbons[i];
                            entry.1.points.push(*p);
                            proof {
                                assert(arena@.lightribbons =~= apply_spec(
                                    self@,
                                    old(arena)@,
                                ).lightribbons);
                            }
                        },
                        None => {},
                    }
                }
            },
            ArenaUpdate::UpdateLightribbonReplaceLatestPoint(id, p) => {
                proof {
                    lemma_al_index_of_map(old(arena).lightribbons@, *id, f_r);
                }
                if -POINT_LIMIT <= p.x && p.x <= POINT_LIMIT && -POINT_LIMIT <= p.y && p.y
                    <= POINT_LIMIT {
                    match al_find(&arena.lightribbons, *id) {
                        Some(i) => {
                            proof {
                                lemma_al_index_of(old(arena).lightribbons@, *id);
                                lemma_al_get_map(old(arena).lightribbons@, *id, f_r);
                            }
                            let ghost oldpts = old(arena).lightribbons@[i as int].1@;
                            let entry = &mut arena.lightribbons[i];
                            entry.1.points.pop();
                            entry.1.points.push(*p);
                            proof {
                                if oldpts.len() > 0 {
                                    assert(entry.1@ =~= oldpts.update(oldpts.len() - 1, *p));
                                } else {
                                    assert(entry.1@ =~= seq![*p]);
                                }
                                assert(arena@.lightribbons =~= apply_spec(
                                    self@,
                                    old(arena)@,
                                ).lightribbons);
                            }
                        },
                        None => {},
                    }
                }
            },
            ArenaUpdate::RemovePlayer(id) => {
                proof {
                    lemma_map_values_al_remove(old(arena).players@, *id, f_p);
                }
                al_del(&mut arena.players, *id);
            },
            ArenaUpdate::RemoveLightcycle(id) => {
                al_del(&mut arena.lightcycles, *id);
            },
            ArenaUpdate::RemoveLightribbon(id) => {
                proof {
                    lemma_map_values_al_remove(old(arena).lightribbons@, *id, f_r);
                }
                al_del(&mut arena.lightribbons, *id);
            },
        }
        proof {
            assert(arena@ =~= apply_spec(self@, old(arena)@));
        }
    }
}

/// Every point of the vector within the engine's coordinate range.
pub fn all_points_ok(pts: &Vec<Point>) -> (r: bool)
    ensures
        r == points_ok(pts@),
{
    let mut i: usize = 0;
    while i < pts.len()
        invariant
            i <= pts@.len(),
            forall|j: int| 0 <= j < i ==> point_ok(#[trigger] pts@[j]),
        decreases pts@.len() - i,
    {
        let p = pts[i];
        if !(-POINT_LIMIT <= p.x && p.x <= POINT_LIMIT && -POINT_LIMIT <= p.y && p.y
            <= POINT_LIMIT) {
            return false;
        }
        i = i + 1;
    }
    true
}

/// What one event does to an arena's folded fields. Ending a round clears
/// the vehicle and trail registries along with the start timestamp: a
/// stopped arena holds neither. Events that name an unknown vehicle or
/// trail, or that carry an out-of-range point or speed, change nothing.
/// The log and the fold cursor are untouched.
pub open spec fn apply_spec(u: UpdateModel, a: ArenaModel) -> ArenaModel {
    match u {
        UpdateModel::AddPlayer(id, p) => ArenaModel {
            players: al_insert(a.players, id, p),
            ..a
        },
        UpdateModel::AddLightcycle(id, lc) => {
            if lightcycle_ok(lc) {
                ArenaModel { lightcycles: al_insert(a.lightcycles, id, lc), ..a }
            } else {
                a
            }
        },
        UpdateModel::AddLightribbon(id, pts) => {
            if points_ok(pts) {
                ArenaModel { lightribbons: al_insert(a.lightribbons, id, pts), ..a }
            } else {
                a
            }
        },
        UpdateModel::Start(at) => ArenaModel { started: Some(at), ..a },
        UpdateModel::End => ArenaModel {
            started: None,
            lightcycles: Seq::empty(),
            lightribbons: Seq::empty(),
            ..a
        },
        UpdateModel::SetWinner(w) => ArenaModel { winner: w, ..a },
        UpdateModel::UpdateLightcyclePosition(id, p) => {
            if point_ok(p) && al_contains(a.lightcycles, id) {
                let lc = al_get(a.lightcycles, id);
                ArenaModel {
                    lightcycles: al_insert(a.lightcycles, id, Lightcycle { position: p, ..lc }),
                    ..a
                }
            } else {
                a
            }
        },
        UpdateModel::UpdateLightcycleDirection(id, d) => {
            if al_contains(a.lightcycles, id) {
                let lc = al_get(a.lightcycles, id);
                ArenaModel {
                    lightcycles: al_insert(a.lightcycles, id, Lightcycle { direction: d, ..lc }),
                    ..a
                }
            } else {
                a
            }
        },
        UpdateModel::UpdateLightcycleApplyDeath(id) => {
            if al_contains(a.lightcycles, id) {
                let lc = al_get(a.lightcycles, id);
                ArenaModel {
                    lightcycles: al_insert(a.lightcycles, id, Lightcycle { dead: true, ..lc }),
                    ..a
                }
            } else {
                a
            }
        },
        UpdateModel::UpdateLightribbonAppendPoint(id, p) => {
            if point_ok(p) && al_contains(a.lightribbons, id) {
                let pts = al_get(a.lightribbons, id);
                ArenaModel { lightribbons: al_insert(a.lightribbons, id, pts.push(p)), ..a }
            } else {
                a
            }
        },
        UpdateModel::UpdateLightribbonReplaceLatestPoint(id, p) => {
            if point_ok(p) && al_contains(a.lightribbons, id) {
                let pts = al_get(a.lightribbons, id);
                let replaced = if pts.len() == 0 {
                    seq![p]
                } else {
                    pts.update(pts.len() - 1, p)
                };
                ArenaModel { lightribbons: al_insert(a.lightribbons, id, replaced), ..a }
            } else {
                a
            }
        },
        UpdateModel::RemovePlayer(id) => ArenaModel { players: al_remove(a.players, id), ..a },
        UpdateModel::RemoveLightcycle(id) => ArenaModel {
            lightcycles: al_remove(a.lightcycles, id),
            ..a
        },
        UpdateModel::RemoveLightribbon(id) => ArenaModel {
            lightribbons: al_remove(a.lightribbons, id),
            ..a
        },
    }
}

/// Applying any event preserves the arena's well-formedness.
pub proof fn lemma_apply_spec_wf(u: UpdateModel, a: ArenaModel)
    requires
        crate::arena::wf_arena(a),
    ensures
        crate::arena::wf_arena(apply_spec(u, a)),
{
    match u {
        UpdateModel::AddPlayer(id, p) => {
            lemma_al_insert_unique(a.players, id, p);
        },
        UpdateModel::AddLightcycle(id, lc) => {
            if lightcycle_ok(lc) {
                lemma_al_insert_unique(a.lightcycles, id, lc);
                lemma_al_index_of(a.lightcycles, id);
            }
        },
        UpdateModel::AddLightribbon(id, pts) => {
            if points_ok(pts) {
                lemma_al_insert_unique(a.lightribbons, id, pts);
                lemma_al_index_of(a.lightribbons, id);
            }
        },
        UpdateModel::Start(at) => {},
        UpdateModel::End => {},
        UpdateModel::SetWinner(w) => {},
        UpdateModel::UpdateLightcyclePosition(id, p) => {
            if point_ok(p) && al_contains(a.lightcycles, id) {
                let lc = al_get(a.lightcycles, id);
                lemma_al_insert_unique(a.lightcycles, id, Lightcycle { position: p, ..lc });
                lemma_al_index_of(a.lightcycles, id);
            }
        },
        UpdateModel::UpdateLightcycleDirection(id, d) => {
            if al_contains(a.lightcycles, id) {
                let lc = al_get(a.lightcycles, id);
                lemma_al_insert_unique(a.lightcycles, id, Lightcycle { direction: d, ..lc });
                lemma_al_index_of(a.lightcycles, id);
            }
        },
        UpdateModel::UpdateLightcycleApplyDeath(id) => {
            if al_contains(a.lightcycles, id) {
                let lc = al_get(a.lightcycles, id);
                lemma_al_insert_unique(a.lightcycles, id, Lightcycle { dead: true, ..lc });
                lemma_al_index_of(a.lightcycles, id);
            }
        },
        UpdateModel::UpdateLightribbonAppendPoint(id, p) => {
            if point_ok(p) && al_contains(a.lightribbons, id) {
                let pts = al_get(a.lightribbons, id);
                lemma_al_insert_unique(a.lightribbons, id, pts.push(p));
                lemma_al_index_of(a.lightribbons, id);
                assert forall|i: int|
                    0 <= i < pts.push(p).len() implies point_ok(#[trigger] pts.push(p)[i]) by {
                    if i < pts.len() {
                        assert(pts.push(p)[i] == pts[i]);
                    }
                }
            }
        },
        UpdateModel::UpdateLightribbonReplaceLatestPoint(id, p) => {
            if point_ok(p) && al_contains(a.lightribbons, id) {
                let pts = al_get(a.lightribbons, id);
                let replaced = if pts.len() == 0 {
                    seq![p]
                } else {
                    pts.update(pts.len() - 1, p)
                };
                lemma_al_insert_unique(a.lightribbons, id, replaced);
                lemma_al_index_of(a.lightribbons, id);
                assert forall|i: int| 0 <= i < replaced.len() implies point_ok(
                    #[trigger] replaced[i],
                ) by {}
            }
        },
        UpdateModel::RemovePlayer(id) => {
            lemma_al_remove_unique(a.players, id);
        },
        UpdateModel::RemoveLightcycle(id) => {
            lemma_al_remove_unique(a.lightcycles, id);
            lemma_al_index_of(a.lightcycles, id);
            if al_contains(a.lightcycles, id) {
                let i = al_index_of(a.lightcycles, id);
                assert forall|j: int|
                    0 <= j < al_remove(a.lightcycles, id).len() implies lightcycle_ok(
                    #[trigger] al_remove(a.lightcycles, id)[j].1,
                ) by {
                    if j < i {
                        assert(al_remove(a.lightcycles, id)[j] == a.lightcycles[j]);
                    } else {
                        assert(al_remove(a.lightcycles, id)[j] == a.lightcycles[j + 1]);
                    }
                }
            }
        },
        UpdateModel::RemoveLightribbon(id) => {
            lemma_al_remove_unique(a.lightribbons, id);
            lemma_al_index_of(a.lightribbons, id);
            if al_contains(a.lightribbons, id) {
                let i = al_index_of(a.lightribbons, id);
                assert forall|j: int|
                    0 <= j < al_remove(a.lightribbons, id).len() implies points_ok(
                    #[trigger] al_remove(a.lightribbons, id)[j].1,
                ) by {
                    if j < i {
                        assert(al_remove(a.lightribbons, id)[j] == a.lightribbons[j]);
                    } else {
                        assert(al_remove(a.lightribbons, id)[j] == a.lightribbons[j + 1]);
                    }
                }
            }
        },
    }
}

} // verus!
