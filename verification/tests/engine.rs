use webtron::arena::{Arena, ARENA_MAX_PLAYERS};
use webtron::updates::ArenaUpdate;
use webtron::entities::{Lightcycle, Lightribbon, LIGHTCYCLE_SPEED};
use webtron::geometry::Line;
use webtron::input::ArenaInput;
use webtron::primitives::{ArenaId, Direction, Player, PlayerColor, PlayerId, Point};
use webtron::rng::GameRng;
use webtron::util::{calculate_spawnpoints, select_ai_from_pool, select_ai_quantity};

fn human(n: u128, name: &str) -> Player {
    Player::new(PlayerId(n), String::from(name), PlayerColor::Blue, false)
}

fn duel_arena() -> Arena {
    let mut arena = Arena::with_name("duel", ArenaId(1));
    arena.add_player(human(1, "a"));
    arena.add_player(human(2, "b"));
    // Vehicle 1 one step short of the right wall; vehicle 2 far away.
    arena.updates.push(ArenaUpdate::AddLightcycle(
        PlayerId(1),
        Lightcycle {
            position: Point { x: 559_000, y: 280_000 },
            direction: Direction::Right,
            speed: LIGHTCYCLE_SPEED,
            dead: false,
        },
    ));
    arena.updates.push(ArenaUpdate::AddLightribbon(
        PlayerId(1),
        Lightribbon::new(vec![
            Point { x: 559_000, y: 280_000 },
            Point { x: 559_000, y: 280_000 },
        ]),
    ));
    arena.updates.push(ArenaUpdate::AddLightcycle(
        PlayerId(2),
        Lightcycle {
            position: Point { x: 100_000, y: 100_000 },
            direction: Direction::Up,
            speed: LIGHTCYCLE_SPEED,
            dead: false,
        },
    ));
    arena.updates.push(ArenaUpdate::AddLightribbon(
        PlayerId(2),
        Lightribbon::new(vec![
            Point { x: 100_000, y: 100_000 },
            Point { x: 100_000, y: 100_000 },
        ]),
    ));
    arena.updates.push(ArenaUpdate::Start(1000));
    arena.apply_updates();
    arena
}

fn find_cycle(arena: &Arena, id: PlayerId) -> Lightcycle {
    for (pid, lc) in arena.lightcycles.iter() {
        if *pid == id {
            return *lc;
        }
    }
    panic!("no such vehicle");
}

#[test]
fn boundary_crossing_kills_and_crowns_within_one_tick() {
    // Two humans in a started round; one tick later vehicle 1 has crossed
    // the right wall, is dead, and - one vehicle remaining - vehicle 2's
    // player is the winner, all within the same tick.
    let mut arena = duel_arena();
    assert_eq!(arena.winner, None);
    arena.update(25, 1000);
    let lc1 = find_cycle(&arena, PlayerId(1));
    let lc2 = find_cycle(&arena, PlayerId(2));
    assert_eq!(lc1.position, Point { x: 560_375, y: 280_000 });
    assert!(lc1.dead);
    assert!(!lc2.dead);
    assert_eq!(arena.winner, Some(PlayerId(2)));
    // The round is still running: one vehicle lives.
    assert!(arena.started.is_some());
    // The winner is set at most once: later ticks leave it alone, even
    // after the survivor dies and the round ends.
    let mut t: i64 = 1025;
    for _ in 0..400 {
        arena.update(25, t);
        t += 25;
    }
    assert_eq!(arena.winner, Some(PlayerId(2)));
    assert_eq!(arena.started, None);
}

#[test]
fn movement_is_exact() {
    // 55 units per second at 25 ms per tick: 1.375 units, exactly 1375
    // thousandths.
    let mut arena = duel_arena();
    arena.update(25, 1000);
    let lc2 = find_cycle(&arena, PlayerId(2));
    assert_eq!(lc2.position, Point { x: 100_000, y: 101_375 });
}

#[test]
fn round_end_stops_and_clears_the_arena() {
    let mut arena = duel_arena();
    // Run long enough for both vehicles to die at the walls.
    let mut t: i64 = 1000;
    for _ in 0..400 {
        arena.update(25, t);
        t += 25;
    }
    // A stopped arena holds no vehicles and no trails; the players stay
    // joined and the round's winner stands.
    assert_eq!(arena.started, None);
    assert!(arena.lightcycles.is_empty());
    assert!(arena.lightribbons.is_empty());
    assert_eq!(arena.players.len(), 2);
    assert_eq!(arena.winner, Some(PlayerId(2)));
}

#[test]
fn fold_is_idempotent() {
    // Folding the log twice with no new events leaves the state unchanged,
    // and the cursor equals the log length both times.
    let mut arena = duel_arena();
    arena.update(25, 1000);
    arena.apply_updates();
    assert_eq!(arena.updates_applied_so_far, arena.updates.len());
    let players = arena.players.clone();
    let cycles = arena.lightcycles.clone();
    let ribbons = arena.lightribbons.clone();
    let winner = arena.winner;
    let started = arena.started;
    let log_len = arena.updates.len();
    arena.apply_updates();
    assert_eq!(arena.updates_applied_so_far, arena.updates.len());
    assert_eq!(arena.players, players);
    assert_eq!(arena.lightcycles, cycles);
    assert_eq!(arena.lightribbons, ribbons);
    assert_eq!(arena.winner, winner);
    assert_eq!(arena.started, started);
    assert_eq!(arena.updates.len(), log_len);
}

#[test]
fn reverse_turn_is_refused() {
    // Vehicle 2 travels Up; a Turn(Down) input appends nothing: no ribbon
    // point, no direction change.
    let mut arena = duel_arena();
    arena.update(25, 1000);
    let before = arena.updates.len();
    let ribbon_before = arena.lightribbons.clone();
    let mut rng = GameRng::new(7);
    arena.process_input(PlayerId(2), ArenaInput::Turn(Direction::Down), 1025, &mut rng);
    assert_eq!(arena.updates.len(), before);
    arena.apply_updates();
    assert_eq!(find_cycle(&arena, PlayerId(2)).direction, Direction::Up);
    assert_eq!(arena.lightribbons, ribbon_before);
}

#[test]
fn valid_turn_freezes_trail_and_changes_direction() {
    let mut arena = duel_arena();
    arena.update(25, 1000);
    let before = arena.updates.len();
    let mut rng = GameRng::new(7);
    arena.process_input(PlayerId(2), ArenaInput::Turn(Direction::Left), 1025, &mut rng);
    assert_eq!(arena.updates.len(), before + 2);
    arena.apply_updates();
    assert_eq!(find_cycle(&arena, PlayerId(2)).direction, Direction::Left);
}

#[test]
fn turn_before_countdown_is_refused() {
    let mut arena = duel_arena();
    // The round starts at 1000; at 500 the countdown still runs.
    let before = arena.updates.len();
    let mut rng = GameRng::new(7);
    arena.process_input(PlayerId(2), ArenaInput::Turn(Direction::Left), 500, &mut rng);
    assert_eq!(arena.updates.len(), before);
}

#[test]
fn turn_of_dead_vehicle_is_refused() {
    let mut arena = duel_arena();
    arena.update(25, 1000);
    assert!(find_cycle(&arena, PlayerId(1)).dead);
    let before = arena.updates.len();
    let mut rng = GameRng::new(7);
    arena.process_input(PlayerId(1), ArenaInput::Turn(Direction::Up), 1025, &mut rng);
    assert_eq!(arena.updates.len(), before);
}

#[test]
fn turn_of_unknown_vehicle_is_refused() {
    let mut arena = duel_arena();
    arena.update(25, 1000);
    let before = arena.updates.len();
    let mut rng = GameRng::new(7);
    arena.process_input(PlayerId(99), ArenaInput::Turn(Direction::Up), 1025, &mut rng);
    assert_eq!(arena.updates.len(), before);
}

#[test]
fn double_start_is_refused() {
    let mut arena = Arena::with_name("solo", ArenaId(2));
    arena.add_player(human(1, "a"));
    arena.add_player(human(2, "b"));
    arena.apply_updates();
    let mut rng = GameRng::new(3);
    arena.process_input(PlayerId(1), ArenaInput::Start, 0, &mut rng);
    arena.apply_updates();
    assert!(arena.started.is_some());
    let before = arena.updates.len();
    arena.process_input(PlayerId(2), ArenaInput::Start, 10, &mut rng);
    assert_eq!(arena.updates.len(), before);
}

#[test]
fn start_spawns_vehicle_and_trail_per_participant() {
    let mut arena = Arena::with_name("pair", ArenaId(3));
    arena.add_player(human(1, "a"));
    arena.add_player(human(2, "b"));
    arena.apply_updates();
    let mut rng = GameRng::new(3);
    arena.process_input(PlayerId(1), ArenaInput::Start, 0, &mut rng);
    arena.apply_updates();
    assert_eq!(arena.lightcycles.len(), 2);
    assert_eq!(arena.lightribbons.len(), 2);
    // Each trail starts as a degenerate segment at its vehicle.
    for (pid, ribbon) in arena.lightribbons.iter() {
        assert_eq!(ribbon.points.len(), 2);
        assert_eq!(ribbon.points[0], ribbon.points[1]);
        assert_eq!(ribbon.points[0], find_cycle(&arena, *pid).position);
    }
    // The countdown is one second past the start input's timestamp.
    assert_eq!(arena.started, Some(1000));
}

#[test]
fn ai_synthesis_counts_humans_not_players() {
    // One human beside an AI player left over from an earlier round still
    // counts as a lone human: the round synthesizes fresh opponents.
    let mut arena = Arena::with_name("mixed", ArenaId(7));
    arena.add_player(human(1, "a"));
    arena.add_player(Player::new(
        PlayerId(9),
        String::from("AI_RAM"),
        PlayerColor::Blue,
        true,
    ));
    arena.apply_updates();
    assert_eq!(arena.players.len(), 2);
    let mut rng = GameRng::new(6);
    arena.process_input(PlayerId(1), ArenaInput::Start, 0, &mut rng);
    arena.apply_updates();
    let ai_count = arena.players.iter().filter(|(_, p)| p.is_ai).count();
    assert!(ai_count >= 2);
    assert_eq!(arena.lightcycles.len(), arena.players.len());
}

#[test]
fn two_humans_get_no_ai_opponents() {
    let mut arena = Arena::with_name("pair", ArenaId(8));
    arena.add_player(human(1, "a"));
    arena.add_player(human(2, "b"));
    arena.apply_updates();
    let mut rng = GameRng::new(6);
    arena.process_input(PlayerId(1), ArenaInput::Start, 0, &mut rng);
    arena.apply_updates();
    assert_eq!(arena.players.len(), 2);
    assert!(arena.players.iter().all(|(_, p)| !p.is_ai));
    assert_eq!(arena.lightcycles.len(), 2);
}

#[test]
fn lone_starter_gets_ai_opponents() {
    let mut arena = Arena::with_name("solo", ArenaId(4));
    arena.add_player(human(1, "a"));
    arena.apply_updates();
    let mut rng = GameRng::new(5);
    arena.process_input(PlayerId(1), ArenaInput::Start, 0, &mut rng);
    arena.apply_updates();
    let ai_count = arena.players.iter().filter(|(_, p)| p.is_ai).count();
    assert!(1 <= ai_count && ai_count <= 3);
    assert_eq!(arena.lightcycles.len(), 1 + ai_count);
}

#[test]
fn identical_inputs_and_seed_give_identical_logs() {
    // Two independent runs over the same input sequence, clock readings,
    // and seed produce identical event logs.
    let run = || {
        let mut arena = Arena::with_name("same", ArenaId(5));
        arena.add_player(human(1, "a"));
        arena.add_player(human(2, "b"));
        arena.apply_updates();
        let mut rng = GameRng::new(99);
        arena.process_input(PlayerId(1), ArenaInput::Start, 0, &mut rng);
        let mut t: i64 = 1000;
        for _ in 0..50 {
            arena.update(25, t);
            t += 25;
        }
        arena.process_input(PlayerId(1), ArenaInput::Turn(Direction::Left), t, &mut rng);
        for _ in 0..50 {
            arena.update(25, t);
            t += 25;
        }
        arena.updates
    };
    let log1 = run();
    let log2 = run();
    assert_eq!(log1, log2);
}

#[test]
fn apply_ignores_unknown_vehicle() {
    let mut arena = duel_arena();
    let cycles = arena.lightcycles.clone();
    let ev = ArenaUpdate::UpdateLightcyclePosition(PlayerId(42), Point { x: 1, y: 1 });
    ev.apply(&mut arena);
    assert_eq!(arena.lightcycles, cycles);
}

#[test]
fn apply_ignores_out_of_range_point() {
    let mut arena = duel_arena();
    let cycles = arena.lightcycles.clone();
    let ev = ArenaUpdate::UpdateLightcyclePosition(
        PlayerId(1),
        Point { x: 300_000_000, y: 0 },
    );
    ev.apply(&mut arena);
    assert_eq!(arena.lightcycles, cycles);
}

#[test]
fn arena_name_is_uppercased() {
    let arena = Arena::with_name("duel", ArenaId(6));
    assert_eq!(arena.name, "DUEL");
    assert_eq!(arena.max_players, ARENA_MAX_PLAYERS);
}

#[test]
fn crossing_segments_intersect_at_the_grid_point() {
    let travel = Line {
        from: Point { x: 0, y: 0 },
        to: Point { x: 10, y: 0 },
    };
    let wall = Line {
        from: Point { x: 5, y: -5 },
        to: Point { x: 5, y: 5 },
    };
    assert_eq!(travel.intersection(&wall), Some(Point { x: 5, y: 0 }));
    assert_eq!(wall.intersection(&travel), Some(Point { x: 5, y: 0 }));
}

#[test]
fn segments_sharing_an_endpoint_do_not_intersect() {
    let a = Line {
        from: Point { x: 0, y: 0 },
        to: Point { x: 10, y: 0 },
    };
    let b = Line {
        from: Point { x: 10, y: 0 },
        to: Point { x: 10, y: 5 },
    };
    assert_eq!(a.intersection(&b), None);
}

#[test]
fn parallel_segments_do_not_intersect() {
    let a = Line {
        from: Point { x: 0, y: 0 },
        to: Point { x: 10, y: 0 },
    };
    let b = Line {
        from: Point { x: 0, y: 1 },
        to: Point { x: 10, y: 1 },
    };
    assert_eq!(a.intersection(&b), None);
    assert!(!a.overlaps_segment(&b));
}

#[test]
fn collinear_overlap_is_detected() {
    let a = Line {
        from: Point { x: 0, y: 0 },
        to: Point { x: 10, y: 0 },
    };
    let b = Line {
        from: Point { x: 5, y: 0 },
        to: Point { x: 15, y: 0 },
    };
    assert!(a.overlaps_segment(&b));
    let coincident = Line {
        from: Point { x: 0, y: 0 },
        to: Point { x: 10, y: 0 },
    };
    assert!(a.overlaps_segment(&coincident));
}

#[test]
fn touching_end_to_end_is_no_overlap() {
    let a = Line {
        from: Point { x: 0, y: 0 },
        to: Point { x: 10, y: 0 },
    };
    let b = Line {
        from: Point { x: 10, y: 0 },
        to: Point { x: 20, y: 0 },
    };
    assert!(!a.overlaps_segment(&b));
}

#[test]
fn trail_point_inside_travel_overlaps() {
    let travel = Line {
        from: Point { x: 0, y: 0 },
        to: Point { x: 10, y: 0 },
    };
    let dot = Line {
        from: Point { x: 5, y: 0 },
        to: Point { x: 5, y: 0 },
    };
    assert!(travel.overlaps_segment(&dot));
}

#[test]
fn generator_is_deterministic() {
    let mut a = GameRng::new(12345);
    let mut b = GameRng::new(12345);
    for _ in 0..10 {
        assert_eq!(a.next_u64(), b.next_u64());
    }
}

#[test]
fn ai_quantity_bounds() {
    let mut rng = GameRng::new(8);
    assert_eq!(select_ai_quantity(false, &mut rng), 0);
    for _ in 0..20 {
        let q = select_ai_quantity(true, &mut rng);
        assert!(1 <= q && q <= 3);
    }
}

#[test]
fn ai_pool_respects_incompatible_pairs() {
    for seed in 0..30u64 {
        let mut rng = GameRng::new(seed);
        let ais = select_ai_from_pool(23, &mut rng);
        let names: Vec<&str> = ais.iter().map(|p| p.name.as_str()).collect();
        let both = |x: &str, y: &str| names.contains(&x) && names.contains(&y);
        assert!(!both("AI_CASTOR", "AI_ZUSE"));
        assert!(!both("AI_CLU", "AI_CLU_2.0"));
        assert!(!both("AI_RINZLER", "AI_TRON"));
        for p in ais.iter() {
            assert!(p.is_ai);
            assert!(p.name.starts_with("AI_"));
        }
    }
}

#[test]
fn spawnpoints_are_distinct_and_capped_at_eight() {
    let ids: Vec<PlayerId> = (0..9u128).map(PlayerId).collect();
    let mut rng = GameRng::new(21);
    let spawns = calculate_spawnpoints(ids, &mut rng);
    assert_eq!(spawns.len(), 8);
    for i in 0..spawns.len() {
        for j in 0..i {
            assert_ne!(spawns[i].1, spawns[j].1);
        }
    }
}

#[test]
fn error_chain_joins_sources() {
    let inner = anyhow::Error::msg("inner");
    let outer = inner.context("outer");
    assert_eq!(webtron::get_error_chain(outer), "outer: inner");
}

#[test]
fn opposite_directions_cancel() {
    assert!(Direction::Up.is_opposite(Direction::Down));
    assert!(Direction::Down.is_opposite(Direction::Up));
    assert!(Direction::Left.is_opposite(Direction::Right));
    assert!(Direction::Right.is_opposite(Direction::Left));
    assert!(!Direction::Up.is_opposite(Direction::Left));
    assert!(!Direction::Up.is_opposite(Direction::Up));
}

#[test]
fn velocities_are_unit_vectors() {
    assert_eq!(Direction::Up.as_velocity(), (0, 1));
    assert_eq!(Direction::Down.as_velocity(), (0, -1));
    assert_eq!(Direction::Left.as_velocity(), (-1, 0));
    assert_eq!(Direction::Right.as_velocity(), (1, 0));
}

#[test]
fn snapshot_copies_the_whole_arena() {
    let mut arena = duel_arena();
    arena.update(25, 1000);
    let snap = arena.snapshot();
    assert_eq!(snap.id, arena.id);
    assert_eq!(snap.name, arena.name);
    assert_eq!(snap.started, arena.started);
    assert_eq!(snap.winner, arena.winner);
    assert_eq!(snap.players, arena.players);
    assert_eq!(snap.lightcycles, arena.lightcycles);
    assert_eq!(snap.lightribbons, arena.lightribbons);
    assert_eq!(snap.updates, arena.updates);
}
