use webtron::messages::{MessageOut, MessagePayload};
use webtron::primitives::{ArenaId, ClientId, Player, PlayerColor, PlayerId};
use webtron::server::{Server, ServerError};

fn player(n: u128, name: &str) -> Player {
    Player::new(PlayerId(n), String::from(name), PlayerColor::Green, false)
}

fn connect(server: &mut Server, cid: ClientId) {
    server
        .handle_message(cid, MessagePayload::Connect(None), 0, ArenaId(0))
        .unwrap();
}

fn join(
    server: &mut Server,
    cid: ClientId,
    p: Player,
    arena_id: Option<ArenaId>,
    fresh: ArenaId,
) -> Result<Vec<MessageOut>, ServerError> {
    server.handle_message(cid, MessagePayload::Join { player: p, arena_id }, 0, fresh)
}

#[test]
fn join_with_unknown_arena_creates_a_fresh_one() {
    // A join naming an unknown arena creates a new arena under a freshly
    // generated id, distinct from the unknown one, and adds the client.
    let mut server = Server::new(1);
    connect(&mut server, ClientId(10));
    let unknown = ArenaId(12345);
    let fresh = ArenaId(777);
    let out = join(&mut server, ClientId(10), player(1, "ann"), Some(unknown), fresh).unwrap();
    assert_ne!(fresh, unknown);
    assert_eq!(server.arenas.len(), 1);
    assert_eq!(server.arenas[0].0, fresh);
    let client = &server.clients[0].1;
    assert_eq!(client.arena, Some(fresh));
    assert_eq!(client.player, Some(PlayerId(1)));
    assert!(matches!(out[0], MessageOut::ArenaJoined(aid, pid)
        if aid == fresh && pid == PlayerId(1)));
}

#[test]
fn join_into_full_arena_is_rejected_without_events() {
    // Eight seats; the ninth join is rejected, the client stays in the
    // lobby, and the full arena's log gains nothing.
    let mut server = Server::new(2);
    let arena_id = ArenaId(50);
    for n in 0..8u128 {
        let cid = ClientId(100 + n);
        connect(&mut server, cid);
        let slot = if n == 0 { None } else { Some(arena_id) };
        join(&mut server, cid, player(n, "p"), slot, arena_id).unwrap();
        // Fold the join so the seat count is current.
        server.update(25, 0);
    }
    assert_eq!(server.arenas.len(), 1);
    assert_eq!(server.arenas[0].1.players.len(), 8);
    let log_before = server.arenas[0].1.updates.len();

    let late = ClientId(200);
    connect(&mut server, late);
    let r = join(&mut server, late, player(9, "late"), Some(arena_id), ArenaId(999));
    assert_eq!(r.unwrap_err(), ServerError::ArenaFull);
    assert_eq!(server.arenas[0].1.updates.len(), log_before);
    let late_client = server.clients.iter().find(|(c, _)| *c == late).unwrap();
    assert_eq!(late_client.1.arena, None);
    assert_eq!(late_client.1.updates_sent_so_far, 0);
}

#[test]
fn replication_sends_snapshot_then_patches_then_nothing() {
    let mut server = Server::new(3);
    let cid = ClientId(1);
    connect(&mut server, cid);
    join(&mut server, cid, player(1, "ann"), None, ArenaId(42)).unwrap();

    // First pass: a full snapshot, cursor jumps to the log's length.
    let out = server.send_updates();
    assert_eq!(out.len(), 1);
    assert_eq!(out[0].0, cid);
    assert!(matches!(out[0].1, MessageOut::ArenaState(_)));
    let cursor1 = server.clients[0].1.updates_sent_so_far;
    assert_eq!(cursor1, server.arenas[0].1.updates.len());
    assert!(cursor1 > 0);

    // Caught up: nothing is sent, the cursor stays.
    let out = server.send_updates();
    assert!(out.is_empty());
    assert_eq!(server.clients[0].1.updates_sent_so_far, cursor1);

    // New events: only the slice past the cursor goes out.
    server
        .handle_message(cid, MessagePayload::Start, 0, ArenaId(0))
        .unwrap();
    let log_len = server.arenas[0].1.updates.len();
    assert!(log_len > cursor1);
    let out = server.send_updates();
    assert_eq!(out.len(), 1);
    match &out[0].1 {
        MessageOut::ArenaStatePatch(evs) => {
            assert_eq!(evs.len(), log_len - cursor1);
            assert_eq!(evs[..], server.arenas[0].1.updates[cursor1..]);
        }
        _ => panic!("expected a patch"),
    }
    let cursor2 = server.clients[0].1.updates_sent_so_far;
    assert_eq!(cursor2, log_len);
    assert!(cursor2 >= cursor1);
}

#[test]
fn cursor_resets_on_leaving_and_forces_a_fresh_snapshot() {
    let mut server = Server::new(4);
    let cid = ClientId(1);
    connect(&mut server, cid);
    join(&mut server, cid, player(1, "ann"), None, ArenaId(42)).unwrap();
    server.send_updates();
    assert!(server.clients[0].1.updates_sent_so_far > 0);
    // Rejoining the same arena resets the cursor, so a full snapshot
    // follows.
    join(&mut server, cid, player(2, "ann"), Some(ArenaId(42)), ArenaId(43)).unwrap();
    let out = server.send_updates();
    assert!(matches!(out[0].1, MessageOut::ArenaState(_)));
}

#[test]
fn empty_arenas_are_dropped() {
    let mut server = Server::new(5);
    let cid = ClientId(1);
    connect(&mut server, cid);
    join(&mut server, cid, player(1, "ann"), None, ArenaId(42)).unwrap();
    server.update(25, 0);
    assert_eq!(server.arenas.len(), 1);
    server.client_part_arena(cid).unwrap();
    server.update(25, 0);
    assert_eq!(server.arenas.len(), 0);
}

#[test]
fn intents_from_unknown_clients_are_rejected() {
    let mut server = Server::new(6);
    let r = server.handle_message(ClientId(9), MessagePayload::Start, 0, ArenaId(0));
    assert_eq!(r.unwrap_err(), ServerError::ClientNotFound);
}

#[test]
fn intents_outside_an_arena_are_rejected() {
    let mut server = Server::new(7);
    connect(&mut server, ClientId(1));
    let r = server.handle_message(ClientId(1), MessagePayload::Start, 0, ArenaId(0));
    assert_eq!(r.unwrap_err(), ServerError::ClientNotInArena);
}

#[test]
fn intents_into_a_vanished_arena_are_rejected() {
    let mut server = Server::new(8);
    let cid = ClientId(1);
    connect(&mut server, cid);
    join(&mut server, cid, player(1, "ann"), None, ArenaId(42)).unwrap();
    server.update(25, 0);
    // The lone player leaves; the arena empties and is dropped, but the
    // client still points at it.
    server.client_part_arena(cid).unwrap();
    server.update(25, 0);
    let r = server.handle_message(cid, MessagePayload::Start, 0, ArenaId(0));
    assert_eq!(r.unwrap_err(), ServerError::ArenaNotFound);
}

#[test]
fn intents_without_a_player_are_rejected() {
    let mut server = Server::new(9);
    let aid = ArenaId(1);
    server.new_arena("ghost", aid);
    connect(&mut server, ClientId(1));
    // A client pointed at an arena without a configured player.
    server.clients[0].1.arena = Some(aid);
    let r = server.handle_message(ClientId(1), MessagePayload::Start, 0, ArenaId(0));
    assert_eq!(r.unwrap_err(), ServerError::ClientHasNoPlayer);
}

#[test]
fn disconnect_removes_the_client_and_its_player() {
    let mut server = Server::new(10);
    let cid = ClientId(1);
    connect(&mut server, cid);
    join(&mut server, cid, player(1, "ann"), None, ArenaId(42)).unwrap();
    server.update(25, 0);
    assert_eq!(server.arenas[0].1.players.len(), 1);
    server
        .handle_message(cid, MessagePayload::Disconnect, 0, ArenaId(0))
        .unwrap();
    assert!(server.clients.is_empty());
    // The removal event is queued; the next tick folds it and, the player
    // set now empty, drops the arena.
    server.update(25, 0);
    assert!(server.arenas.is_empty());
}

#[test]
fn arena_list_reports_every_arena() {
    let mut server = Server::new(11);
    connect(&mut server, ClientId(1));
    connect(&mut server, ClientId(2));
    join(&mut server, ClientId(1), player(1, "ann"), None, ArenaId(41)).unwrap();
    server.update(25, 0);
    let out = server
        .handle_message(ClientId(2), MessagePayload::GetArenaList, 0, ArenaId(0))
        .unwrap();
    match &out[0] {
        MessageOut::ArenaList(list) => {
            assert_eq!(list.len(), 1);
            assert_eq!(list[0].id, ArenaId(41));
            assert_eq!(list[0].name, "ANN");
            assert_eq!(list[0].players.len(), 1);
        }
        _ => panic!("expected an arena list"),
    }
}

#[test]
fn two_servers_with_one_seed_replay_identically() {
    let run = || {
        let mut server = Server::new(2024);
        connect(&mut server, ClientId(1));
        connect(&mut server, ClientId(2));
        join(&mut server, ClientId(1), player(1, "ann"), None, ArenaId(77)).unwrap();
        join(&mut server, ClientId(2), player(2, "bob"), Some(ArenaId(77)), ArenaId(78)).unwrap();
        server.update(25, 0);
        server
            .handle_message(ClientId(1), MessagePayload::Start, 0, ArenaId(0))
            .unwrap();
        let mut t: i64 = 1000;
        for _ in 0..100 {
            server.update(25, t);
            t += 25;
        }
        server.arenas[0].1.updates.clone()
    };
    assert_eq!(run(), run());
}

#[test]
fn connection_messages_carry_their_client() {
    let m = webtron::messages::MessageIn::connect(ClientId(5), Some(String::from("127.0.0.1")));
    assert_eq!(m.client_id, ClientId(5));
    assert!(matches!(m.payload, MessagePayload::Connect(Some(_))));
    let d = webtron::messages::MessageIn::disconnect(ClientId(5));
    assert_eq!(d.client_id, ClientId(5));
    assert!(matches!(d.payload, MessagePayload::Disconnect));
}

#[test]
fn leaving_a_live_round_removes_vehicle_and_trail() {
    let mut server = Server::new(12);
    connect(&mut server, ClientId(1));
    connect(&mut server, ClientId(2));
    join(&mut server, ClientId(1), player(1, "ann"), None, ArenaId(60)).unwrap();
    join(&mut server, ClientId(2), player(2, "bob"), Some(ArenaId(60)), ArenaId(61)).unwrap();
    server.update(25, 0);
    server
        .handle_message(ClientId(1), MessagePayload::Start, 0, ArenaId(0))
        .unwrap();
    server.update(25, 0);
    assert_eq!(server.arenas[0].1.lightcycles.len(), 2);
    assert_eq!(server.arenas[0].1.lightribbons.len(), 2);

    // Leaving a live round takes the leaver's vehicle and trail with it.
    server.client_part_arena(ClientId(1)).unwrap();
    server.update(25, 0);
    let arena = &server.arenas[0].1;
    assert_eq!(arena.players.len(), 1);
    assert_eq!(arena.players[0].0, PlayerId(2));
    assert_eq!(arena.lightcycles.len(), 1);
    assert_eq!(arena.lightcycles[0].0, PlayerId(2));
    assert_eq!(arena.lightribbons.len(), 1);
    assert_eq!(arena.lightribbons[0].0, PlayerId(2));
}

#[test]
fn leaving_a_stopped_arena_removes_only_the_membership() {
    let mut server = Server::new(13);
    connect(&mut server, ClientId(1));
    connect(&mut server, ClientId(2));
    join(&mut server, ClientId(1), player(1, "ann"), None, ArenaId(62)).unwrap();
    join(&mut server, ClientId(2), player(2, "bob"), Some(ArenaId(62)), ArenaId(63)).unwrap();
    server.update(25, 0);
    let log_before = server.arenas[0].1.updates.len();
    server.client_part_arena(ClientId(1)).unwrap();
    // One event only: the membership removal.
    assert_eq!(server.arenas[0].1.updates.len(), log_before + 1);
    server.update(25, 0);
    assert_eq!(server.arenas[0].1.players.len(), 1);
}
