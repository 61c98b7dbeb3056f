//! The session server: the one owner of the client registry and of every
//! arena. It dispatches inbound intents, advances every arena once per
//! tick, and computes per-client replication from each arena's update log:
//! a full snapshot for a client at cursor zero, a patch of the events past
//! the cursor otherwise, nothing when the client is caught up.
//!
//! Clock readings and freshly generated arena ids enter as arguments, and
//! all in-round randomness comes from the server's seeded generator, so
//! every transition is a function of its inputs; `tick`, `now_millis`, and
//! the id helpers supply the outside values at the edge.

use vstd::prelude::*;

use crate::arena::{
    append_updates, fresh_arena, lemma_tick_grows_log, overview_of, tick_spec, upper_of, wf_arena,
    Arena, ArenaModel, ArenaOverview, ArenaOverviewModel, DELTA_LIMIT, NOW_LIMIT,
};
use crate::assoc::{
    al_contains, al_find, al_get, al_index_of, al_insert, al_put, al_remove, al_unique,
    lemma_al_get_map, lemma_al_index_of, lemma_al_index_of_map, lemma_al_insert_get,
    lemma_al_insert_other, lemma_al_insert_pointwise, lemma_al_insert_unique,
    lemma_al_remove_unique, lemma_map_values_al_insert, lemma_map_values_al_remove,
};
use crate::input::{input_updates_spec, ArenaInput};
use crate::messages::{
    overviews_view, MessageOut, MessageOutModel, MessagePayload, MessagePayloadModel,
};
use crate::primitives::{ArenaId, Client, ClientId, ClientModel, PlayerId};
use crate::rng::GameRng;
use crate::updates::{updates_view, ArenaUpdate, UpdateModel};

verus! {

/// Why the server rejected an inbound message. The offending message is
/// dropped; no error ever aborts a tick or touches another arena.
#[derive(Debug, Clone, Copy, PartialEq, Eq, Structural)]
pub enum ServerError {
    ClientNotFound,
    ClientNotInArena,
    ArenaNotFound,
    ClientHasNoPlayer,
    ArenaFull,
}

/// The mathematical value of the session server.
#[verifier::ext_equal]
pub struct ServerModel {
    pub clients: Seq<(ClientId, ClientModel)>,
    pub arenas: Seq<(ArenaId, ArenaModel)>,
    pub rng: u64,
}

/// The session server.
#[derive(Debug)]
pub struct Server {
    pub clients: Vec<(ClientId, Client)>,
    pub arenas: Vec<(ArenaId, Arena)>,
    pub rng: GameRng,
}

/// The mathematical values of the client registry.
pub open spec fn clients_model(s: Seq<(ClientId, Client)>) -> Seq<(ClientId, ClientModel)> {
    s.map_values(|e: (ClientId, Client)| (e.0, e.1@))
}

/// The mathematical values of the arena registry.
pub open spec fn arenas_model(s: Seq<(ArenaId, Arena)>) -> Seq<(ArenaId, ArenaModel)> {
    s.map_values(|e: (ArenaId, Arena)| (e.0, e.1@))
}

/// The mathematical values of a batch of addressed outbound messages.
pub open spec fn outs_view(s: Seq<(ClientId, MessageOut)>) -> Seq<(ClientId, MessageOutModel)> {
    s.map_values(|e: (ClientId, MessageOut)| (e.0, e.1@))
}

/// The mathematical values of a batch of outbound messages.
pub open spec fn msgs_view(s: Seq<MessageOut>) -> Seq<MessageOutModel> {
    s.map_values(|m: MessageOut| m@)
}

impl View for Server {
    type V = ServerModel;

    open spec fn view(&self) -> ServerModel {
        ServerModel {
            clients: clients_model(self.clients@),
            arenas: arenas_model(self.arenas@),
            rng: self.rng.state,
        }
    }
}

/// The state the server must be in for a tick: registries keyed uniquely
/// and every arena well formed. Every server operation preserves it.
pub open spec fn wf_server(m: ServerModel) -> bool {
    &&& al_unique(m.clients)
    &&& al_unique(m.arenas)
    &&& forall|i: int| 0 <= i < m.arenas.len() ==> wf_arena(#[trigger] m.arenas[i].1)
}

/// Inserting a well-formed arena keeps the registry well formed.
proof fn lemma_wf_arenas_insert(s: Seq<(ArenaId, ArenaModel)>, id: ArenaId, a: ArenaModel)
    requires
        al_unique(s),
        forall|i: int| 0 <= i < s.len() ==> wf_arena(#[trigger] s[i].1),
        wf_arena(a),
    ensures
        al_unique(al_insert(s, id, a)),
        forall|i: int|
            0 <= i < al_insert(s, id, a).len() ==> wf_arena(#[trigger] al_insert(s, id, a)[i].1),
{
    lemma_al_insert_unique(s, id, a);
    lemma_al_index_of(s, id);
}

/// A freshly connected client: no player, no arena, cursor at zero.
pub open spec fn fresh_client(cid: ClientId, ip: Option<Seq<char>>) -> ClientModel {
    ClientModel { id: cid, ip_address: ip, player: None, arena: None, updates_sent_so_far: 0 }
}

/// What creating an arena does: a fresh, stopped arena under the given id,
/// named by the given text in upper case.
pub open spec fn new_arena_spec(m: ServerModel, name: Seq<char>, id: ArenaId) -> ServerModel {
    ServerModel { arenas: al_insert(m.arenas, id, fresh_arena(id, upper_of(name))), ..m }
}

/// What routing an intent to the sender's arena does: resolve the client,
/// its arena, and its player, in that order; then append the intent's
/// events to that arena's log.
pub open spec fn client_input_spec(m: ServerModel, cid: ClientId, input: ArenaInput, now: i64) -> (
    ServerModel,
    Result<(), ServerError>,
) {
    if !al_contains(m.clients, cid) {
        (m, Err(ServerError::ClientNotFound))
    } else {
        let c = al_get(m.clients, cid);
        match c.arena {
            None => (m, Err(ServerError::ClientNotInArena)),
            Some(aid) => {
                if !al_contains(m.arenas, aid) {
                    (m, Err(ServerError::ArenaNotFound))
                } else {
                    match c.player {
                        None => (m, Err(ServerError::ClientHasNoPlayer)),
                        Some(pid) => {
                            let a = al_get(m.arenas, aid);
                            let evs = input_updates_spec(input, a, pid, now, m.rng);
                            (
                                ServerModel {
                                    arenas: al_insert(m.arenas, aid, append_updates(a, evs.0)),
                                    rng: evs.1,
                                    ..m
                                },
                                Ok(()),
                            )
                        },
                    }
                }
            },
        }
    }
}

/// What leaving the current arena does: reset the client's replication
/// cursor, then queue the player's departure from its arena - in a live
/// round the player's vehicle and trail go too.
pub open spec fn part_arena_spec(m: ServerModel, cid: ClientId) -> (
    ServerModel,
    Result<(), ServerError>,
) {
    if !al_contains(m.clients, cid) {
        (m, Err(ServerError::ClientNotFound))
    } else {
        let c = al_get(m.clients, cid);
        let m1 = ServerModel {
            clients: al_insert(
                m.clients,
                cid,
                ClientModel { updates_sent_so_far: 0, ..c },
            ),
            ..m
        };
        match c.arena {
            None => (m1, Err(ServerError::ClientNotInArena)),
            Some(aid) => {
                if !al_contains(m.arenas, aid) {
                    (m1, Err(ServerError::ArenaNotFound))
                } else {
                    match c.player {
                        None => (m1, Err(ServerError::ClientHasNoPlayer)),
                        Some(pid) => {
                            let a = al_get(m.arenas, aid);
                            let a2 = append_updates(a, crate::arena::part_events(a, pid));
                            (
                                ServerModel { arenas: al_insert(m.arenas, aid, a2), ..m1 },
                                Ok(()),
                            )
                        },
                    }
                }
            },
        }
    }
}

impl Server {
    /// A server with no clients and no arenas, whose spawn and AI draws
    /// will all come from the given seed.
    pub fn new(seed: u64) -> (r: Server)
        ensures
            r@ == (ServerModel { clients: Seq::empty(), arenas: Seq::empty(), rng: seed }),
            wf_server(r@),
            cursors_within(r@),
    {
        let r = Server { clients: Vec::new(), arenas: Vec::new(), rng: GameRng::new(seed) };
        proof {
            assert(r@ =~= (ServerModel {
                clients: Seq::empty(),
                arenas: Seq::empty(),
                rng: seed,
            }));
        }
        r
    }

    /// Create an arena named after the given text, under the given id.
    pub fn new_arena(&mut self, name: &str, id: ArenaId) -> (r: ArenaId)
        ensures
            final(self)@ == new_arena_spec(old(self)@, name@, id),
            r == id,
            wf_server(old(self)@) ==> wf_server(final(self)@),
    {
        let ghost f_a = |e: (ArenaId, Arena)| (e.0, e.1@);
        let arena = Arena::with_name(name, id);
        proof {
            assert(arenas_model(old(self).arenas@) =~= old(self).arenas@.map_values(f_a));
            lemma_map_values_al_insert(old(self).arenas@, id, arena, f_a);
        }
        al_put(&mut self.arenas, id, arena);
        proof {
            assert(self@ =~= new_arena_spec(old(self)@, name@, id));
            if wf_server(old(self)@) {
                lemma_wf_arenas_insert(
                    old(self)@.arenas,
                    id,
                    fresh_arena(id, upper_of(name@)),
                );
            }
        }
        id
    }

    /// Route an intent to the sender's arena, as `client_input_spec` says.
    pub fn client_input(&mut self, client_id: ClientId, input: ArenaInput, now_ms: i64) -> (r:
        Result<(), ServerError>)
        requires
            0 <= now_ms <= NOW_LIMIT,
        ensures
            final(self)@ == client_input_spec(old(self)@, client_id, input, now_ms).0,
            r == client_input_spec(old(self)@, client_id, input, now_ms).1,
            wf_server(old(self)@) ==> wf_server(final(self)@),
    {
        let ghost f_c = |e: (ClientId, Client)| (e.0, e.1@);
        let ghost f_a = |e: (ArenaId, Arena)| (e.0, e.1@);
        proof {
            assert(clients_model(old(self).clients@) =~= old(self).clients@.map_values(f_c));
            assert(arenas_model(old(self).arenas@) =~= old(self).arenas@.map_values(f_a));
            lemma_al_index_of_map(old(self).clients@, client_id, f_c);
            lemma_al_index_of(old(self).clients@, client_id);
        }
        let ci = match al_find(&self.clients, client_id) {
            Some(ci) => ci,
            None => {
                return Err(ServerError::ClientNotFound);
            },
        };
        proof {
            lemma_al_get_map(old(self).clients@, client_id, f_c);
        }
        let arena_id = match self.clients[ci].1.arena {
            Some(aid) => aid,
            None => {
                return Err(ServerError::ClientNotInArena);
            },
        };
        proof {
            lemma_al_index_of_map(old(self).arenas@, arena_id, f_a);
            lemma_al_index_of(old(self).arenas@, arena_id);
        }
        let ai = match al_find(&self.arenas, arena_id) {
            Some(ai) => ai,
            None => {
                return Err(ServerError::ArenaNotFound);
            },
        };
        let player_id = match self.clients[ci].1.player {
            Some(pid) => pid,
            None => {
                return Err(ServerError::ClientHasNoPlayer);
            },
        };
        proof {
            lemma_al_get_map(old(self).arenas@, arena_id, f_a);
        }
        let entry = &mut self.arenas[ai];
        entry.1.process_input(player_id, input, now_ms, &mut self.rng);
        proof {
            let m = old(self)@;
            let a = al_get(m.arenas, arena_id);
            let evs = input_updates_spec(input, a, player_id, now_ms, m.rng);
            assert(self@.arenas =~= al_insert(m.arenas, arena_id, append_updates(a, evs.0)));
            assert(self@ =~= client_input_spec(m, client_id, input, now_ms).0);
            if wf_server(m) {
                lemma_wf_arenas_insert(m.arenas, arena_id, append_updates(a, evs.0));
            }
        }
        Ok(())
    }

    /// Take the sender out of its arena, as `part_arena_spec` says: in a
    /// live round its vehicle and trail are removed with it, and the
    /// replication cursor resets even when no arena or player remains.
    pub fn client_part_arena(&mut self, client_id: ClientId) -> (r: Result<(), ServerError>)
        ensures
            final(self)@ == part_arena_spec(old(self)@, client_id).0,
            r == part_arena_spec(old(self)@, client_id).1,
            wf_server(old(self)@) ==> wf_server(final(self)@),
    {
        let ghost f_c = |e: (ClientId, Client)| (e.0, e.1@);
        let ghost f_a = |e: (ArenaId, Arena)| (e.0, e.1@);
        proof {
            assert(clients_model(old(self).clients@) =~= old(self).clients@.map_values(f_c));
            assert(arenas_model(old(self).arenas@) =~= old(self).arenas@.map_values(f_a));
            lemma_al_index_of_map(old(self).clients@, client_id, f_c);
            lemma_al_index_of(old(self).clients@, client_id);
        }
        let ci = match al_find(&self.clients, client_id) {
            Some(ci) => ci,
            None => {
                return Err(ServerError::ClientNotFound);
            },
        };
        proof {
            lemma_al_get_map(old(self).clients@, client_id, f_c);
        }
        let entry = &mut self.clients[ci];
        entry.1.updates_sent_so_far = 0;
        let arena = entry.1.arena;
        let player = entry.1.player;
        proof {
            let m = old(self)@;
            let c = al_get(m.clients, client_id);
            assert(self@.clients =~= al_insert(
                m.clients,
                client_id,
                ClientModel { updates_sent_so_far: 0, ..c },
            ));
            assert(self@.arenas == m.arenas);
            if wf_server(m) {
                lemma_al_insert_unique(
                    m.clients,
                    client_id,
                    ClientModel { updates_sent_so_far: 0, ..c },
                );
            }
        }
        let ghost m1 = self@;
        let arena_id = match arena {
            Some(aid) => aid,
            None => {
                return Err(ServerError::ClientNotInArena);
            },
        };
        proof {
            lemma_al_index_of_map(old(self).arenas@, arena_id, f_a);
            lemma_al_index_of(old(self).arenas@, arena_id);
        }
        let ai = match al_find(&self.arenas, arena_id) {
            Some(ai) => ai,
            None => {
                return Err(ServerError::ArenaNotFound);
            },
        };
        let player_id = match player {
            Some(pid) => pid,
            None => {
                return Err(ServerError::ClientHasNoPlayer);
            },
        };
        proof {
            lemma_al_get_map(old(self).arenas@, arena_id, f_a);
        }
        let entry = &mut self.arenas[ai];
        entry.1.part_player(player_id);
        proof {
            let m = old(self)@;
            let a = al_get(m.arenas, arena_id);
            let a2 = append_updates(a, crate::arena::part_events(a, player_id));
            assert(self@.arenas =~= al_insert(m.arenas, arena_id, a2));
            assert(self@.clients == m1.clients);
            assert(self@ =~= part_arena_spec(m, client_id).0);
            if wf_server(m) {
                lemma_wf_arenas_insert(m.arenas, arena_id, a2);
            }
        }
        Ok(())
    }
}

/// The lobby overviews of every arena, in registry order.
pub open spec fn overview_list(arenas: Seq<(ArenaId, ArenaModel)>) -> Seq<ArenaOverviewModel> {
    arenas.map_values(|e: (ArenaId, ArenaModel)| overview_of(e.1))
}

/// What dispatching one inbound message does, and what it sends back to
/// the sender: register a connection; unregister one (leaving any arena
/// first); list the arenas; join an arena, creating one under the fresh id
/// when none was named or the named one is gone, and rejecting the join
/// when the resolved arena is full; or route a start or turn intent.
pub open spec fn handle_message_spec(
    m: ServerModel,
    cid: ClientId,
    p: MessagePayloadModel,
    now: i64,
    fresh: ArenaId,
) -> (ServerModel, Result<Seq<MessageOutModel>, ServerError>) {
    match p {
        MessagePayloadModel::Connect(ip) => (
            ServerModel { clients: al_insert(m.clients, cid, fresh_client(cid, ip)), ..m },
            Ok(Seq::empty()),
        ),
        MessagePayloadModel::Disconnect => {
            let m1 = part_arena_spec(m, cid).0;
            if !al_contains(m1.clients, cid) {
                (m1, Err(ServerError::ClientNotFound))
            } else {
                (
                    ServerModel { clients: al_remove(m1.clients, cid), ..m1 },
                    Ok(Seq::empty()),
                )
            }
        },
        MessagePayloadModel::GetArenaList => {
            if !al_contains(m.clients, cid) {
                (m, Err(ServerError::ClientNotFound))
            } else {
                (m, Ok(seq![MessageOutModel::ArenaList(overview_list(m.arenas))]))
            }
        },
        MessagePayloadModel::Join { player, arena_id } => {
            let m1 = part_arena_spec(m, cid).0;
            let use_existing = match arena_id {
                Some(aid) => al_contains(m1.arenas, aid),
                None => false,
            };
            let aid = if use_existing {
                arena_id->Some_0
            } else {
                fresh
            };
            let m2 = if use_existing {
                m1
            } else {
                new_arena_spec(m1, player.name, fresh)
            };
            let a = al_get(m2.arenas, aid);
            if a.players.len() >= a.max_players as int {
                (m2, Err(ServerError::ArenaFull))
            } else if !al_contains(m2.clients, cid) {
                (m2, Err(ServerError::ClientNotFound))
            } else {
                let a2 = append_updates(
                    a,
                    seq![UpdateModel::AddPlayer(player.id, player)],
                );
                let c = al_get(m2.clients, cid);
                let c2 = ClientModel { player: Some(player.id), arena: Some(aid), ..c };
                (
                    ServerModel {
                        arenas: al_insert(m2.arenas, aid, a2),
                        clients: al_insert(m2.clients, cid, c2),
                        ..m2
                    },
                    Ok(seq![MessageOutModel::ArenaJoined(a.id, player.id)]),
                )
            }
        },
        MessagePayloadModel::Start => {
            let r = client_input_spec(m, cid, ArenaInput::Start, now);
            (
                r.0,
                match r.1 {
                    Ok(u) => Ok(Seq::empty()),
                    Err(e) => Err(e),
                },
            )
        },
        MessagePayloadModel::Turn(d) => {
            let r = client_input_spec(m, cid, ArenaInput::Turn(d), now);
            (
                r.0,
                match r.1 {
                    Ok(u) => Ok(Seq::empty()),
                    Err(e) => Err(e),
                },
            )
        },
    }
}

impl Server {
    /// Dispatch one inbound message, as `handle_message_spec` says; on
    /// success, the returned messages go back to the sender. `fresh_id` is
    /// used only when the join path creates an arena.
    pub fn handle_message(
        &mut self,
        client_id: ClientId,
        payload: MessagePayload,
        now_ms: i64,
        fresh_id: ArenaId,
    ) -> (r: Result<Vec<MessageOut>, ServerError>)
        requires
            0 <= now_ms <= NOW_LIMIT,
        ensures
            final(self)@ == handle_message_spec(old(self)@, client_id, payload@, now_ms, fresh_id).0,
            (r is Ok) == (handle_message_spec(old(self)@, client_id, payload@, now_ms, fresh_id).1
                is Ok),
            r is Ok ==> msgs_view(r->Ok_0@) == handle_message_spec(
                old(self)@,
                client_id,
                payload@,
                now_ms,
                fresh_id,
            ).1->Ok_0,
            r is Err ==> r->Err_0 == handle_message_spec(
                old(self)@,
                client_id,
                payload@,
                now_ms,
                fresh_id,
            ).1->Err_0,
            wf_server(old(self)@) ==> wf_server(final(self)@),
    {
        let ghost f_c = |e: (ClientId, Client)| (e.0, e.1@);
        let ghost f_a = |e: (ArenaId, Arena)| (e.0, e.1@);
        let ghost m0 = self@;
        match payload {
            MessagePayload::Connect(ip) => {
                let ghost ipm = match ip {
                    Some(ref s) => Some(s@),
                    None => None::<Seq<char>>,
                };
                let c = Client {
                    id: client_id,
                    ip_address: ip,
                    player: None,
                    arena: None,
                    updates_sent_so_far: 0,
                };
                proof {
                    assert(clients_model(self.clients@) =~= self.clients@.map_values(f_c));
                    lemma_map_values_al_insert(self.clients@, client_id, c, f_c);
                    if wf_server(m0) {
                        lemma_al_insert_unique(m0.clients, client_id, fresh_client(client_id, ipm));
                    }
                }
                al_put(&mut self.clients, client_id, c);
                let out: Vec<MessageOut> = Vec::new();
                proof {
                    assert(self@ =~= handle_message_spec(m0, client_id, payload@, now_ms, fresh_id).0);
                    assert(msgs_view(out@) =~= Seq::<MessageOutModel>::empty());
                }
                Ok(out)
            },
            MessagePayload::Disconnect => {
                let ghost pres = part_arena_spec(m0, client_id).0;
                let part_outcome = self.client_part_arena(client_id);
                proof {
                    assert(clients_model(self.clients@) =~= self.clients@.map_values(f_c));
                    lemma_al_index_of_map(self.clients@, client_id, f_c);
                    lemma_al_index_of(self.clients@, client_id);
                    if wf_server(pres) {
                        lemma_al_remove_unique(pres.clients, client_id);
                    }
                    lemma_map_values_al_remove(self.clients@, client_id, f_c);
                    lemma_al_index_of(pres.clients, client_id);
                }
                match al_find(&self.clients, client_id) {
                    Some(i) => {
                        self.clients.remove(i);
                        let out: Vec<MessageOut> = Vec::new();
                        proof {
                            assert(self@.clients =~= al_remove(pres.clients, client_id));
                            assert(self@ =~= handle_message_spec(
                                m0,
                                client_id,
                                payload@,
                                now_ms,
                                fresh_id,
                            ).0);
                            assert(msgs_view(out@) =~= Seq::<MessageOutModel>::empty());
                        }
                        Ok(out)
                    },
                    None => Err(ServerError::ClientNotFound),
                }
            },
            MessagePayload::GetArenaList => {
                proof {
                    assert(clients_model(self.clients@) =~= self.clients@.map_values(f_c));
                    lemma_al_index_of_map(self.clients@, client_id, f_c);
                    lemma_al_index_of(self.clients@, client_id);
                }
                match al_find(&self.clients, client_id) {
                    None => Err(ServerError::ClientNotFound),
                    Some(_found) => {
                        let list = self.arena_list();
                        let mut out: Vec<MessageOut> = Vec::new();
                        out.push(MessageOut::ArenaList(list));
                        proof {
                            assert(msgs_view(out@) =~= seq![
                                MessageOutModel::ArenaList(overview_list(m0.arenas)),
                            ]);
                        }
                        Ok(out)
                    },
                }
            },
            MessagePayload::Join { player, arena_id } => {
                let ghost pm = player@;
                let _ = self.client_part_arena(client_id);
                let ghost m1 = self@;
                let target = match arena_id {
                    Some(aid) => {
                        proof {
                            assert(arenas_model(self.arenas@) =~= self.arenas@.map_values(f_a));
                            lemma_al_index_of_map(self.arenas@, aid, f_a);
                        }
                        match al_find(&self.arenas, aid) {
                            Some(_found) => aid,
                            None => self.new_arena(&player.name, fresh_id),
                        }
                    },
                    None => self.new_arena(&player.name, fresh_id),
                };
                let ghost m2 = self@;
                proof {
                    crate::assoc::lemma_al_insert_get(
                        m1.arenas,
                        fresh_id,
                        fresh_arena(fresh_id, upper_of(pm.name)),
                    );
                    assert(al_contains(m2.arenas, target));
                    assert(arenas_model(self.arenas@) =~= self.arenas@.map_values(f_a));
                    lemma_al_index_of_map(self.arenas@, target, f_a);
                    lemma_al_index_of(self.arenas@, target);
                    lemma_al_get_map(self.arenas@, target, f_a);
                    lemma_al_index_of(m2.arenas, target);
                }
                let ai = match al_find(&self.arenas, target) {
                    Some(ai) => ai,
                    None => {
                        proof {
                            assert(false);
                        }
                        return Err(ServerError::ArenaNotFound);
                    },
                };
                if self.arenas[ai].1.players.len() >= self.arenas[ai].1.max_players {
                    return Err(ServerError::ArenaFull);
                }
                proof {
                    assert(clients_model(self.clients@) =~= self.clients@.map_values(f_c));
                    lemma_al_index_of_map(self.clients@, client_id, f_c);
                    lemma_al_index_of(self.clients@, client_id);
                }
                let ci = match al_find(&self.clients, client_id) {
                    Some(ci) => ci,
                    None => {
                        return Err(ServerError::ClientNotFound);
                    },
                };
                proof {
                    lemma_al_get_map(self.clients@, client_id, f_c);
                }
                let player_id = player.id;
                let arena_own_id = self.arenas[ai].1.id;
                let ghost a_pre = self@.arenas[ai as int].1;
                let entry = &mut self.arenas[ai];
                entry.1.add_player(player);
                proof {
                    assert(a_pre.updates.push(UpdateModel::AddPlayer(pm.id, pm)) =~= a_pre.updates
                        + seq![UpdateModel::AddPlayer(pm.id, pm)]);
                    assert(self@.arenas =~= al_insert(
                        m2.arenas,
                        target,
                        append_updates(a_pre, seq![UpdateModel::AddPlayer(pm.id, pm)]),
                    ));
                    if wf_server(m2) {
                        lemma_wf_arenas_insert(
                            m2.arenas,
                            target,
                            append_updates(a_pre, seq![UpdateModel::AddPlayer(pm.id, pm)]),
                        );
                    }
                }
                let ghost m3 = self@;
                let centry = &mut self.clients[ci];
                centry.1.player = Some(player_id);
                centry.1.arena = Some(target);
                proof {
                    let c = al_get(m2.clients, client_id);
                    let c2 = ClientModel { player: Some(pm.id), arena: Some(target), ..c };
                    assert(self@.clients =~= al_insert(m2.clients, client_id, c2));
                    assert(self@.arenas == m3.arenas);
                    if wf_server(m2) {
                        lemma_al_insert_unique(m2.clients, client_id, c2);
                    }
                    assert(self@ =~= handle_message_spec(m0, client_id, payload@, now_ms, fresh_id).0);
                }
                let mut out: Vec<MessageOut> = Vec::new();
                out.push(MessageOut::ArenaJoined(arena_own_id, player_id));
                proof {
                    assert(msgs_view(out@) =~= seq![
                        MessageOutModel::ArenaJoined(arena_own_id, pm.id),
                    ]);
                }
                Ok(out)
            },
            MessagePayload::Start => {
                match self.client_input(client_id, ArenaInput::Start, now_ms) {
                    Ok(_routed) => {
                        let out: Vec<MessageOut> = Vec::new();
                        proof {
                            assert(msgs_view(out@) =~= Seq::<MessageOutModel>::empty());
                        }
                        Ok(out)
                    },
                    Err(e) => Err(e),
                }
            },
            MessagePayload::Turn(d) => {
                match self.client_input(client_id, ArenaInput::Turn(d), now_ms) {
                    Ok(_routed) => {
                        let out: Vec<MessageOut> = Vec::new();
                        proof {
                            assert(msgs_view(out@) =~= Seq::<MessageOutModel>::empty());
                        }
                        Ok(out)
                    },
                    Err(e) => Err(e),
                }
            },
        }
    }

    /// The lobby overviews of every arena, in registry order.
    fn arena_list(&self) -> (r: Vec<ArenaOverview>)
        ensures
            overviews_view(r@) == overview_list(self@.arenas),
    {
        let ghost target = overview_list(self@.arenas);
        let mut out: Vec<ArenaOverview> = Vec::new();
        let mut i: usize = 0;
        while i < self.arenas.len()
            invariant
                i <= self.arenas@.len(),
                target == overview_list(self@.arenas),
                target.len() == self.arenas@.len(),
                out@.len() == i,
                forall|j: int| 0 <= j < i ==> (#[trigger] out@[j])@ == target[j],
            decreases self.arenas@.len() - i,
        {
            let o = ArenaOverview::from(&self.arenas[i].1);
            proof {
                assert(self@.arenas[i as int] == (self.arenas@[i as int].0, self.arenas@[i as int].1@));
            }
            out.push(o);
            i = i + 1;
        }
        proof {
            assert(overviews_view(out@) =~= target);
        }
        out
    }
}

/// What one server tick does to the arenas: advance each simulation, then
/// drop every arena whose player set has emptied, keeping order.
pub open spec fn retained_arenas(
    s: Seq<(ArenaId, ArenaModel)>,
    delta: i64,
    now: i64,
) -> Seq<(ArenaId, ArenaModel)>
    decreases s.len(),
{
    if s.len() == 0 {
        Seq::empty()
    } else {
        let a2 = tick_spec(s[0].1, delta, now);
        (if a2.players.len() > 0 {
            seq![(s[0].0, a2)]
        } else {
            Seq::empty()
        }) + retained_arenas(s.drop_first(), delta, now)
    }
}

/// What replicating to one client sends, and where its cursor moves: a
/// full snapshot and a cursor at the log's length for a cursor at zero, a
/// patch of the events past the cursor for one behind, nothing for one
/// caught up; clients outside any live arena are left alone.
pub open spec fn replicate_one(c: ClientModel, arenas: Seq<(ArenaId, ArenaModel)>) -> (
    ClientModel,
    Seq<(ClientId, MessageOutModel)>,
) {
    match c.arena {
        None => (c, Seq::empty()),
        Some(aid) => {
            if !al_contains(arenas, aid) {
                (c, Seq::empty())
            } else {
                let a = al_get(arenas, aid);
                if c.updates_sent_so_far == 0 {
                    (
                        ClientModel { updates_sent_so_far: a.updates.len() as int, ..c },
                        seq![(c.id, MessageOutModel::ArenaState(a))],
                    )
                } else if c.updates_sent_so_far < a.updates.len() {
                    (
                        ClientModel { updates_sent_so_far: a.updates.len() as int, ..c },
                        seq![
                            (
                                c.id,
                                MessageOutModel::ArenaStatePatch(
                                    a.updates.skip(c.updates_sent_so_far),
                                ),
                            ),
                        ],
                    )
                } else {
                    (c, Seq::empty())
                }
            }
        },
    }
}

/// Replication over all clients, in registry order: each client's cursor
/// moves as `replicate_one` says, and the messages accumulate.
pub open spec fn replicate_all(
    clients: Seq<(ClientId, ClientModel)>,
    arenas: Seq<(ArenaId, ArenaModel)>,
) -> (Seq<(ClientId, ClientModel)>, Seq<(ClientId, MessageOutModel)>)
    decreases clients.len(),
{
    if clients.len() == 0 {
        (Seq::empty(), Seq::empty())
    } else {
        let one = replicate_one(clients[0].1, arenas);
        let rest = replicate_all(clients.drop_first(), arenas);
        (seq![(clients[0].0, one.0)] + rest.0, one.1 + rest.1)
    }
}

/// Replication acts on each client independently: the updated registry is
/// the pointwise image of `replicate_one`.
pub proof fn lemma_replicate_all_pointwise(
    clients: Seq<(ClientId, ClientModel)>,
    arenas: Seq<(ArenaId, ArenaModel)>,
)
    ensures
        replicate_all(clients, arenas).0.len() == clients.len(),
        forall|j: int|
            0 <= j < clients.len() ==> replicate_all(clients, arenas).0[j] == (
                clients[j].0,
                replicate_one(clients[j].1, arenas).0,
            ),
    decreases clients.len(),
{
    if clients.len() > 0 {
        let d = clients.drop_first();
        lemma_replicate_all_pointwise(d, arenas);
        assert forall|j: int|
            0 <= j < clients.len() implies replicate_all(clients, arenas).0[j] == (
            clients[j].0,
            replicate_one(clients[j].1, arenas).0,
        ) by {
            if j > 0 {
                assert(d[j - 1] == clients[j]);
                assert(replicate_all(clients, arenas).0[j] == replicate_all(d, arenas).0[j - 1]);
            }
        }
    }
}

/// The events of a log past a cursor, for a patch.
fn patch_slice(updates: &Vec<ArenaUpdate>, from: usize) -> (r: Vec<ArenaUpdate>)
    requires
        from <= updates@.len(),
    ensures
        updates_view(r@) == updates_view(updates@).skip(from as int),
{
    let mut out: Vec<ArenaUpdate> = Vec::new();
    let mut i: usize = from;
    while i < updates.len()
        invariant
            from <= i <= updates@.len(),
            out@.len() == i - from,
            forall|j: int| 0 <= j < out@.len() ==> (#[trigger] out@[j])@ == updates@[from + j]@,
        decreases updates@.len() - i,
    {
        out.push(updates[i].duplicate());
        i = i + 1;
    }
    proof {
        assert(updates_view(out@) =~= updates_view(updates@).skip(from as int));
    }
    out
}

impl Server {
    /// One server tick over the arenas: advance every arena's simulation
    /// by `delta_ms`, then drop the arenas all of whose players have left,
    /// as `retained_arenas` says.
    pub fn update(&mut self, delta_ms: i64, now_ms: i64)
        requires
            wf_server(old(self)@),
            0 <= delta_ms <= DELTA_LIMIT,
        ensures
            final(self)@ == (ServerModel {
                arenas: retained_arenas(old(self)@.arenas, delta_ms, now_ms),
                ..old(self)@
            }),
    {
        let ghost m0 = self@;
        let mut kept: Vec<(ArenaId, Arena)> = Vec::new();
        proof {
            assert(arenas_model(old(self).arenas@) =~= m0.arenas);
            assert(arenas_model(kept@) =~= Seq::<(ArenaId, ArenaModel)>::empty());
            assert(arenas_model(kept@) + retained_arenas(m0.arenas, delta_ms, now_ms)
                =~= retained_arenas(m0.arenas, delta_ms, now_ms));
        }
        while self.arenas.len() > 0
            invariant
                m0 == old(self)@,
                0 <= delta_ms <= DELTA_LIMIT,
                self.clients@ == old(self).clients@,
                self.rng == old(self).rng,
                forall|i: int|
                    0 <= i < arenas_model(self.arenas@).len() ==> wf_arena(
                        #[trigger] arenas_model(self.arenas@)[i].1,
                    ),
                retained_arenas(m0.arenas, delta_ms, now_ms) == arenas_model(kept@)
                    + retained_arenas(arenas_model(self.arenas@), delta_ms, now_ms),
            decreases self.arenas@.len(),
        {
            let ghost pre = arenas_model(self.arenas@);
            let ghost kept0 = kept@;
            let mut entry = self.arenas.remove(0);
            proof {
                assert(arenas_model(self.arenas@) =~= pre.drop_first());
                assert(pre[0] == (entry.0, entry.1@));
                assert(wf_arena(entry.1@));
            }
            entry.1.update(delta_ms, now_ms);
            if entry.1.players.len() > 0 {
                kept.push(entry);
                proof {
                    assert(arenas_model(kept@) =~= arenas_model(kept0).push(
                        (kept@[kept@.len() - 1].0, kept@[kept@.len() - 1].1@),
                    ));
                    assert(arenas_model(kept0) + (seq![
                        (pre[0].0, tick_spec(pre[0].1, delta_ms, now_ms)),
                    ] + retained_arenas(pre.drop_first(), delta_ms, now_ms)) =~= arenas_model(kept@)
                        + retained_arenas(pre.drop_first(), delta_ms, now_ms));
                }
            } else {
                proof {
                    assert(tick_spec(pre[0].1, delta_ms, now_ms).players.len() == 0);
                    assert(arenas_model(kept0) + (Seq::<(ArenaId, ArenaModel)>::empty()
                        + retained_arenas(pre.drop_first(), delta_ms, now_ms)) =~= arenas_model(
                        kept@,
                    ) + retained_arenas(pre.drop_first(), delta_ms, now_ms));
                }
            }
        }
        proof {
            assert(arenas_model(self.arenas@) =~= Seq::<(ArenaId, ArenaModel)>::empty());
        }
        self.arenas = kept;
        proof {
            assert(retained_arenas(m0.arenas, delta_ms, now_ms) =~= arenas_model(self.arenas@));
            assert(self@ =~= (ServerModel {
                arenas: retained_arenas(m0.arenas, delta_ms, now_ms),
                ..m0
            }));
        }
    }

    /// Replicate every arena's update log to its clients, as
    /// `replicate_all` says: a full snapshot once per join, then only
    /// deltas; the returned messages are addressed by client id.
    #[verifier::rlimit(80)]
    pub fn send_updates(&mut self) -> (r: Vec<(ClientId, MessageOut)>)
        ensures
            final(self)@ == (ServerModel {
                clients: replicate_all(old(self)@.clients, old(self)@.arenas).0,
                ..old(self)@
            }),
            outs_view(r@) == replicate_all(old(self)@.clients, old(self)@.arenas).1,
    {
        let ghost m0 = self@;
        let mut out: Vec<(ClientId, MessageOut)> = Vec::new();
        let mut i: usize = 0;
        let n = self.clients.len();
        proof {
            lemma_replicate_all_pointwise(m0.clients, m0.arenas);
            assert(clients_model(self.clients@) == m0.clients);
            assert(m0.clients.skip(0) =~= m0.clients);
            assert(outs_view(out@) =~= Seq::<(ClientId, MessageOutModel)>::empty());
            assert(outs_view(out@) + replicate_all(m0.clients, m0.arenas).1 =~= replicate_all(
                m0.clients,
                m0.arenas,
            ).1);
        }
        while i < n
            invariant
                m0 == old(self)@,
                i <= n,
                n == self.clients@.len(),
                m0.arenas == arenas_model(self.arenas@),
                self.rng == old(self).rng,
                m0.clients.len() == n,
                forall|j: int| i <= j < n ==> self.clients@[j] == old(self).clients@[j],
                forall|j: int|
                    0 <= j < i ==> clients_model(self.clients@)[j] == (
                        m0.clients[j].0,
                        replicate_one(m0.clients[j].1, m0.arenas).0,
                    ),
                replicate_all(m0.clients, m0.arenas).1 == outs_view(out@) + replicate_all(
                    clients_model(self.clients@).skip(i as int),
                    m0.arenas,
                ).1,
                replicate_all(m0.clients, m0.arenas).0.len() == n,
                forall|j: int|
                    0 <= j < n ==> replicate_all(m0.clients, m0.arenas).0[j] == (
                        m0.clients[j].0,
                        replicate_one(m0.clients[j].1, m0.arenas).0,
                    ),
            decreases n - i,
        {
            let ghost f_a = |e: (ArenaId, Arena)| (e.0, e.1@);
            let ghost pre_vec = self.clients@;
            let ghost pre_clients = clients_model(self.clients@);
            let ghost rest = pre_clients.skip(i as int);
            let ghost out0 = out@;
            proof {
                assert(self.clients@[i as int] == old(self).clients@[i as int]);
                assert(m0.clients[i as int] == (
                    old(self).clients@[i as int].0,
                    old(self).clients@[i as int].1@,
                ));
                assert(pre_clients[i as int] == (pre_vec[i as int].0, pre_vec[i as int].1@));
                assert(pre_clients[i as int] == m0.clients[i as int]);
                assert(rest[0] == pre_clients[i as int]);
                assert(rest.drop_first() =~= pre_clients.skip(i as int + 1));
            }
            let cid = self.clients[i].0;
            let c_arena = self.clients[i].1.arena;
            let c_cursor = self.clients[i].1.updates_sent_so_far;
            let c_own_id = self.clients[i].1.id;
            match c_arena {
                None => {},
                Some(aid) => {
                    proof {
                        assert(arenas_model(self.arenas@) =~= self.arenas@.map_values(f_a));
                        lemma_al_index_of_map(self.arenas@, aid, f_a);
                        lemma_al_index_of(self.arenas@, aid);
                    }
                    match al_find(&self.arenas, aid) {
                        None => {},
                        Some(ai) => {
                            proof {
                                lemma_al_get_map(self.arenas@, aid, f_a);
                            }
                            if c_cursor == 0 {
                                let snap = self.arenas[ai].1.snapshot();
                                let newlen = self.arenas[ai].1.updates.len();
                                out.push((c_own_id, MessageOut::ArenaState(snap)));
                                let centry = &mut self.clients[i];
                                centry.1.updates_sent_so_far = newlen;
                            } else if c_cursor < self.arenas[ai].1.updates.len() {
                                let patch = patch_slice(&self.arenas[ai].1.updates, c_cursor);
                                let newlen = self.arenas[ai].1.updates.len();
                                out.push((c_own_id, MessageOut::ArenaStatePatch(patch)));
                                let centry = &mut self.clients[i];
                                centry.1.updates_sent_so_far = newlen;
                            }
                        },
                    }
                },
            }
            i = i + 1;
            proof {
                let one = replicate_one(m0.clients[i - 1].1, m0.arenas);
                assert(m0.clients[i - 1].1 == rest[0].1);
                assert forall|j: int| i <= j < n implies self.clients@[j] == old(self).clients@[j]
                    by {
                    assert(self.clients@[j] == pre_vec[j]);
                }
                assert(clients_model(self.clients@)[i - 1] == (
                    self.clients@[i - 1].0,
                    self.clients@[i - 1].1@,
                ));
                assert(clients_model(self.clients@)[i - 1] == (m0.clients[i - 1].0, one.0));
                assert forall|j: int|
                    0 <= j < self.clients@.len() && j != i - 1 implies clients_model(
                    self.clients@,
                )[j] == pre_clients[j] by {
                    assert(self.clients@[j] == pre_vec[j]);
                    assert(clients_model(self.clients@)[j] == (
                        self.clients@[j].0,
                        self.clients@[j].1@,
                    ));
                    assert(pre_clients[j] == (pre_vec[j].0, pre_vec[j].1@));
                }
                assert forall|j: int| 0 <= j < i implies clients_model(self.clients@)[j] == (
                    m0.clients[j].0,
                    replicate_one(m0.clients[j].1, m0.arenas).0,
                ) by {
                    if j < i - 1 {
                        assert(clients_model(self.clients@)[j] == pre_clients[j]);
                        assert(pre_clients[j] == (
                            m0.clients[j].0,
                            replicate_one(m0.clients[j].1, m0.arenas).0,
                        ));
                    }
                }
                assert(outs_view(out@) =~= outs_view(out0) + one.1);
                assert(outs_view(out0) + (one.1 + replicate_all(
                    clients_model(self.clients@).skip(i as int),
                    m0.arenas,
                ).1) =~= outs_view(out@) + replicate_all(
                    clients_model(self.clients@).skip(i as int),
                    m0.arenas,
                ).1);
                assert(clients_model(self.clients@).skip(i as int) =~= rest.drop_first());
            }
        }
        proof {
            assert(clients_model(self.clients@).skip(n as int) =~= Seq::<
                (ClientId, ClientModel),
            >::empty());
            assert(replicate_all(m0.clients, m0.arenas).1 =~= outs_view(out@));
            assert(clients_model(self.clients@) =~= replicate_all(m0.clients, m0.arenas).0);
            assert(self@ =~= (ServerModel {
                clients: replicate_all(m0.clients, m0.arenas).0,
                ..m0
            }));
        }
        out
    }
}


/// One client's replication cursor lies within its arena's update log,
/// whenever that arena exists.
pub open spec fn cursor_ok(c: ClientModel, arenas: Seq<(ArenaId, ArenaModel)>) -> bool {
    match c.arena {
        None => true,
        Some(aid) => al_contains(arenas, aid) ==> 0 <= c.updates_sent_so_far <= al_get(
            arenas,
            aid,
        ).updates.len(),
    }
}

/// Every client's replication cursor lies within its arena's update log.
/// A fresh server has it, and every server operation keeps it; with it,
/// one replication pass catches every joined client up exactly.
pub open spec fn cursors_within(m: ServerModel) -> bool {
    forall|j: int| 0 <= j < m.clients.len() ==> cursor_ok((#[trigger] m.clients[j]).1, m.arenas)
}

/// Appending to one arena's log keeps every cursor within its log.
proof fn lemma_arena_append_cursors(
    m: ServerModel,
    aid: ArenaId,
    a2: ArenaModel,
    m2: ServerModel,
)
    requires
        cursors_within(m),
        al_contains(m.arenas, aid),
        a2.updates.len() >= al_get(m.arenas, aid).updates.len(),
        m2.clients == m.clients,
        m2.arenas == al_insert(m.arenas, aid, a2),
    ensures
        cursors_within(m2),
{
    assert forall|j: int| 0 <= j < m2.clients.len() implies cursor_ok(
        (#[trigger] m2.clients[j]).1,
        m2.arenas,
    ) by {
        assert(cursor_ok(m.clients[j].1, m.arenas));
        match m.clients[j].1.arena {
            None => {},
            Some(x) => {
                if x == aid {
                    lemma_al_insert_get(m.arenas, aid, a2);
                } else {
                    lemma_al_insert_other(m.arenas, aid, a2, x);
                }
            },
        }
    }
}

/// Routing an intent keeps every cursor within its log.
pub proof fn lemma_client_input_cursors(
    m: ServerModel,
    cid: ClientId,
    input: ArenaInput,
    now: i64,
)
    requires
        cursors_within(m),
    ensures
        cursors_within(client_input_spec(m, cid, input, now).0),
{
    if al_contains(m.clients, cid) {
        let c = al_get(m.clients, cid);
        match c.arena {
            None => {},
            Some(aid) => {
                if al_contains(m.arenas, aid) {
                    match c.player {
                        None => {},
                        Some(pid) => {
                            let a = al_get(m.arenas, aid);
                            let evs = input_updates_spec(input, a, pid, now, m.rng);
                            lemma_arena_append_cursors(
                                m,
                                aid,
                                append_updates(a, evs.0),
                                client_input_spec(m, cid, input, now).0,
                            );
                        },
                    }
                }
            },
        }
    }
}

/// A cursor reset for one client keeps every cursor within its log;
/// the other clients' records are untouched.
proof fn lemma_client_reset_cursors(m: ServerModel, cid: ClientId, m1: ServerModel)
    requires
        cursors_within(m),
        al_contains(m.clients, cid),
        m1 == (ServerModel {
            clients: al_insert(
                m.clients,
                cid,
                ClientModel { updates_sent_so_far: 0, ..al_get(m.clients, cid) },
            ),
            ..m
        }),
    ensures
        cursors_within(m1),
        forall|j: int|
            0 <= j < m1.clients.len() ==> (#[trigger] m1.clients[j]).1.arena
                == m.clients[j].1.arena,
        m1.clients.len() == m.clients.len(),
{
    let c1 = ClientModel { updates_sent_so_far: 0, ..al_get(m.clients, cid) };
    lemma_al_insert_pointwise(m.clients, cid, c1);
    lemma_al_index_of(m.clients, cid);
    assert forall|j: int| 0 <= j < m1.clients.len() implies cursor_ok(
        (#[trigger] m1.clients[j]).1,
        m1.arenas,
    ) && m1.clients[j].1.arena == m.clients[j].1.arena by {
        assert(cursor_ok(m.clients[j].1, m.arenas));
        if j == al_index_of(m.clients, cid) {
            assert(m1.clients[j] == (cid, c1));
        } else {
            assert(m1.clients[j] == m.clients[j]);
        }
    }
}

/// Leaving an arena keeps every cursor within its log, and touches no
/// client's arena pointer.
pub proof fn lemma_part_arena_cursors(m: ServerModel, cid: ClientId)
    requires
        cursors_within(m),
    ensures
        cursors_within(part_arena_spec(m, cid).0),
        part_arena_spec(m, cid).0.clients.len() == m.clients.len(),
        forall|j: int|
            0 <= j < m.clients.len() ==> (#[trigger] part_arena_spec(m, cid).0.clients[j]).1.arena
                == m.clients[j].1.arena,
    decreases 1int,
{
    if al_contains(m.clients, cid) {
        let c = al_get(m.clients, cid);
        let m1 = ServerModel {
            clients: al_insert(m.clients, cid, ClientModel { updates_sent_so_far: 0, ..c }),
            ..m
        };
        lemma_client_reset_cursors(m, cid, m1);
        match c.arena {
            None => {},
            Some(aid) => {
                if al_contains(m.arenas, aid) {
                    match c.player {
                        None => {},
                        Some(pid) => {
                            let a = al_get(m.arenas, aid);
                            let a2 = append_updates(a, crate::arena::part_events(a, pid));
                            lemma_arena_append_cursors(
                                m1,
                                aid,
                                a2,
                                part_arena_spec(m, cid).0,
                            );
                        },
                    }
                }
            },
        }
    }
}

/// The entries a server tick keeps are exactly ticked arenas, key for key.
proof fn lemma_retained_entries(s: Seq<(ArenaId, ArenaModel)>, delta: i64, now: i64)
    ensures
        forall|j: int|
            0 <= j < retained_arenas(s, delta, now).len() ==> exists|i: int|
                0 <= i < s.len() && #[trigger] retained_arenas(s, delta, now)[j] == (
                    s[i].0,
                    tick_spec(s[i].1, delta, now),
                ),
    decreases s.len(),
{
    if s.len() > 0 {
        let d = s.drop_first();
        lemma_retained_entries(d, delta, now);
        let a2 = tick_spec(s[0].1, delta, now);
        let kept = a2.players.len() > 0;
        assert forall|j: int| 0 <= j < retained_arenas(s, delta, now).len() implies exists|i: int|
            0 <= i < s.len() && #[trigger] retained_arenas(s, delta, now)[j] == (
                s[i].0,
                tick_spec(s[i].1, delta, now),
            ) by {
            if kept && j == 0 {
                assert(retained_arenas(s, delta, now)[0] == (s[0].0, tick_spec(s[0].1, delta, now)));
            } else {
                let jd = if kept {
                    j - 1
                } else {
                    j
                };
                assert(retained_arenas(s, delta, now)[j] == retained_arenas(d, delta, now)[jd]);
                let i0 = choose|i: int|
                    0 <= i < d.len() && retained_arenas(d, delta, now)[jd] == (
                        d[i].0,
                        tick_spec(d[i].1, delta, now),
                    );
                assert(d[i0] == s[i0 + 1]);
                assert(retained_arenas(s, delta, now)[j] == (
                    s[i0 + 1].0,
                    tick_spec(s[i0 + 1].1, delta, now),
                ));
            }
        }
    }
}

/// A server tick keeps every cursor within its log: every surviving arena
/// is a ticked one, and a tick never shortens a log.
pub proof fn lemma_update_cursors(m: ServerModel, delta: i64, now: i64)
    requires
        cursors_within(m),
        wf_server(m),
    ensures
        cursors_within(
            ServerModel { arenas: retained_arenas(m.arenas, delta, now), ..m },
        ),
{
    let r = retained_arenas(m.arenas, delta, now);
    lemma_retained_entries(m.arenas, delta, now);
    assert forall|j: int| 0 <= j < m.clients.len() implies cursor_ok(
        (#[trigger] m.clients[j]).1,
        r,
    ) by {
        assert(cursor_ok(m.clients[j].1, m.arenas));
        match m.clients[j].1.arena {
            None => {},
            Some(aid) => {
                if al_contains(r, aid) {
                    lemma_al_index_of(r, aid);
                    let ridx = al_index_of(r, aid);
                    let i = choose|i: int|
                        0 <= i < m.arenas.len() && r[ridx] == (
                            m.arenas[i].0,
                            tick_spec(m.arenas[i].1, delta, now),
                        );
                    crate::assoc::lemma_al_unique_index(m.arenas, i);
                    assert(wf_arena(m.arenas[i].1));
                    lemma_tick_grows_log(m.arenas[i].1, delta, now);
                }
            },
        }
    }
}

/// A replication pass keeps every cursor within its log.
pub proof fn lemma_send_updates_cursors(m: ServerModel)
    requires
        cursors_within(m),
    ensures
        cursors_within(
            ServerModel { clients: replicate_all(m.clients, m.arenas).0, ..m },
        ),
{
    lemma_replicate_all_pointwise(m.clients, m.arenas);
    assert forall|j: int| 0 <= j < m.clients.len() implies cursor_ok(
        (#[trigger] replicate_all(m.clients, m.arenas).0[j]).1,
        m.arenas,
    ) by {
        assert(cursor_ok(m.clients[j].1, m.arenas));
        lemma_replication_cursor(m.clients[j].1, m.arenas);
    }
}

/// Dispatching a message keeps every cursor within its log, provided the
/// fresh arena id is indeed fresh: no client may already point at it. The
/// uuid wrapper that mints the id cannot promise that, so it stands here
/// as the one hypothesis.
pub proof fn lemma_handle_message_cursors(
    m: ServerModel,
    cid: ClientId,
    p: MessagePayloadModel,
    now: i64,
    fresh: ArenaId,
)
    requires
        cursors_within(m),
        forall|j: int| 0 <= j < m.clients.len() ==> (#[trigger] m.clients[j]).1.arena != Some(fresh),
    ensures
        cursors_within(handle_message_spec(m, cid, p, now, fresh).0),
{
    let r = handle_message_spec(m, cid, p, now, fresh).0;
    match p {
        MessagePayloadModel::Connect(ip) => {
            let c = fresh_client(cid, ip);
            lemma_al_insert_pointwise(m.clients, cid, c);
            lemma_al_index_of(m.clients, cid);
            assert forall|j: int| 0 <= j < r.clients.len() implies cursor_ok(
                (#[trigger] r.clients[j]).1,
                r.arenas,
            ) by {
                if 0 <= j < m.clients.len() && j != al_index_of(m.clients, cid) {
                    assert(r.clients[j] == m.clients[j]);
                    assert(cursor_ok(m.clients[j].1, m.arenas));
                } else {
                    assert(r.clients[j] == (cid, c));
                }
            }
        },
        MessagePayloadModel::Disconnect => {
            let m1 = part_arena_spec(m, cid).0;
            lemma_part_arena_cursors(m, cid);
            if al_contains(m1.clients, cid) {
                lemma_al_index_of(m1.clients, cid);
                let idx = al_index_of(m1.clients, cid);
                assert forall|j: int| 0 <= j < r.clients.len() implies cursor_ok(
                    (#[trigger] r.clients[j]).1,
                    r.arenas,
                ) by {
                    if j < idx {
                        assert(r.clients[j] == m1.clients[j]);
                        assert(cursor_ok(m1.clients[j].1, m1.arenas));
                    } else {
                        assert(r.clients[j] == m1.clients[j + 1]);
                        assert(cursor_ok(m1.clients[j + 1].1, m1.arenas));
                    }
                }
            }
        },
        MessagePayloadModel::GetArenaList => {},
        MessagePayloadModel::Join { player, arena_id } => {
            let m1 = part_arena_spec(m, cid).0;
            lemma_part_arena_cursors(m, cid);
            let use_existing = match arena_id {
                Some(aid) => al_contains(m1.arenas, aid),
                None => false,
            };
            let aid = if use_existing {
                arena_id->Some_0
            } else {
                fresh
            };
            let m2 = if use_existing {
                m1
            } else {
                new_arena_spec(m1, player.name, fresh)
            };
            let far = fresh_arena(fresh, upper_of(player.name));
            if !use_existing {
                assert forall|j: int| 0 <= j < m2.clients.len() implies cursor_ok(
                    (#[trigger] m2.clients[j]).1,
                    m2.arenas,
                ) by {
                    assert(cursor_ok(m1.clients[j].1, m1.arenas));
                    assert(m1.clients[j].1.arena == m.clients[j].1.arena);
                    match m1.clients[j].1.arena {
                        None => {},
                        Some(x) => {
                            assert(x != fresh);
                            lemma_al_insert_other(m1.arenas, fresh, far, x);
                        },
                    }
                }
            }
            let a = al_get(m2.arenas, aid);
            if a.players.len() >= a.max_players as int {
            } else if !al_contains(m2.clients, cid) {
            } else {
                let a2 = append_updates(a, seq![UpdateModel::AddPlayer(player.id, player)]);
                let c = al_get(m2.clients, cid);
                let c2 = ClientModel { player: Some(player.id), arena: Some(aid), ..c };
                let m3 = ServerModel {
                    arenas: al_insert(m2.arenas, aid, a2),
                    clients: al_insert(m2.clients, cid, c2),
                    ..m2
                };
                assert(al_contains(m.clients, cid));
                lemma_al_insert_get(
                    m.clients,
                    cid,
                    ClientModel { updates_sent_so_far: 0, ..al_get(m.clients, cid) },
                );
                lemma_al_insert_pointwise(m2.clients, cid, c2);
                lemma_al_index_of(m2.clients, cid);
                assert forall|j: int| 0 <= j < m3.clients.len() implies cursor_ok(
                    (#[trigger] m3.clients[j]).1,
                    m3.arenas,
                ) by {
                    if j == al_index_of(m2.clients, cid) {
                        assert(m3.clients[j] == (cid, c2));
                        assert(c2.updates_sent_so_far == c.updates_sent_so_far);
                        assert(c.updates_sent_so_far == 0);
                        lemma_al_insert_get(m2.arenas, aid, a2);
                    } else {
                        assert(m3.clients[j] == m2.clients[j]);
                        assert(cursor_ok(m2.clients[j].1, m2.arenas));
                        match m2.clients[j].1.arena {
                            None => {},
                            Some(x) => {
                                if x == aid {
                                    lemma_al_insert_get(m2.arenas, aid, a2);
                                } else {
                                    lemma_al_insert_other(m2.arenas, aid, a2, x);
                                }
                            },
                        }
                    }
                }
                assert(r == m3);
            }
        },
        MessagePayloadModel::Start => {
            lemma_client_input_cursors(m, cid, ArenaInput::Start, now);
        },
        MessagePayloadModel::Turn(d) => {
            lemma_client_input_cursors(m, cid, ArenaInput::Turn(d), now);
        },
    }
}

/// Replicating to one client never moves its cursor backwards; and a
/// client joined to a live arena whose cursor is within the log is exactly
/// caught up afterwards.
pub proof fn lemma_replication_cursor(c: ClientModel, arenas: Seq<(ArenaId, ArenaModel)>)
    ensures
        replicate_one(c, arenas).0.updates_sent_so_far >= c.updates_sent_so_far,
        c.arena is Some && al_contains(arenas, c.arena->Some_0) && c.updates_sent_so_far <= al_get(
            arenas,
            c.arena->Some_0,
        ).updates.len() ==> replicate_one(c, arenas).0.updates_sent_so_far == al_get(
            arenas,
            c.arena->Some_0,
        ).updates.len(),
{
}

/// Cursor monotonicity: one replication pass never moves any client's
/// cursor backwards; and every client joined to a live arena, with a
/// cursor within the log, holds exactly the log's length afterwards - it
/// is caught up, so a second pass with no further inputs sends nothing.
/// The within-the-log hypothesis is `cursors_within`, which `Server::new`
/// establishes and every server operation preserves (`handle_message`
/// under the one unprovable assumption that its fresh arena id collides
/// with no client's stale arena pointer).
pub proof fn lemma_cursor_monotonic(
    clients: Seq<(ClientId, ClientModel)>,
    arenas: Seq<(ArenaId, ArenaModel)>,
)
    ensures
        replicate_all(clients, arenas).0.len() == clients.len(),
        forall|j: int|
            0 <= j < clients.len() ==> replicate_all(clients, arenas).0[j].1.updates_sent_so_far
                >= clients[j].1.updates_sent_so_far,
        forall|j: int|
            0 <= j < clients.len() && (clients[j].1.arena is Some && al_contains(
                arenas,
                clients[j].1.arena->Some_0,
            ) && clients[j].1.updates_sent_so_far <= al_get(
                arenas,
                clients[j].1.arena->Some_0,
            ).updates.len()) ==> replicate_all(clients, arenas).0[j].1.updates_sent_so_far
                == al_get(arenas, clients[j].1.arena->Some_0).updates.len(),
    decreases clients.len(),
{
    lemma_replicate_all_pointwise(clients, arenas);
    assert forall|j: int| 0 <= j < clients.len() implies replicate_all(
        clients,
        arenas,
    ).0[j].1.updates_sent_so_far >= clients[j].1.updates_sent_so_far by {
        lemma_replication_cursor(clients[j].1, arenas);
    }
    assert forall|j: int|
        0 <= j < clients.len() && (clients[j].1.arena is Some && al_contains(
            arenas,
            clients[j].1.arena->Some_0,
        ) && clients[j].1.updates_sent_so_far <= al_get(
            arenas,
            clients[j].1.arena->Some_0,
        ).updates.len()) implies replicate_all(clients, arenas).0[j].1.updates_sent_so_far
        == al_get(arenas, clients[j].1.arena->Some_0).updates.len() by {
        lemma_replication_cursor(clients[j].1, arenas);
    }
}

/// Relies on chrono::Utc::now: the current wall-clock time in milliseconds
/// since the epoch. Nothing can be promised of the clock's reading.
#[verifier::external_body]
pub fn now_millis() -> i64 {
    chrono::Utc::now().timestamp_millis()
}

impl Server {
    /// One server tick at the wall clock's current time: what `update`
    /// does at some clock reading.
    pub fn tick(&mut self, delta_ms: i64)
        requires
            wf_server(old(self)@),
            0 <= delta_ms <= DELTA_LIMIT,
        ensures
            exists|now: i64|
                final(self)@ == (ServerModel {
                    arenas: #[trigger] retained_arenas(old(self)@.arenas, delta_ms, now),
                    ..old(self)@
                }),
    {
        let now = now_millis();
        self.update(delta_ms, now);
        proof {
            assert(retained_arenas(old(self)@.arenas, delta_ms, now) == retained_arenas(
                old(self)@.arenas,
                delta_ms,
                now,
            ));
        }
    }
}

} // verus!
