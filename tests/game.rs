use curve_fever::game::{pixel_range, Game, GameError, PlayerState};
use curve_fever::message::Direction;
use curve_fever::player::{Player, Span, Spawn, SUBPIXELS};

fn steps(line_width: u32) -> Vec<(i64, i64)> {
    (0..360)
        .map(|h| {
            let r = (h as f64).to_radians();
            let scale = line_width as f64 * SUBPIXELS as f64;
            ((r.sin() * scale).round() as i64, (r.cos() * scale).round() as i64)
        })
        .collect()
}

fn game_with(n: u128) -> Game {
    let mut g = Game::new(100, 100, 2, 2, steps(2));
    for id in 1..=n {
        g.add_player(id, &format!("p{}", id), "#ffffff");
    }
    g
}

fn spawn(x: u32, y: u32, heading: u32) -> Spawn {
    Spawn { x, y, turns: heading / 2 }
}

#[test]
fn player_stays_inside_field_under_hard_turns() {
    let table = steps(4);
    let mut p = Player::new(9, "spin", "#000000", 30, 20, 4, 90);
    p.initialize_at(Spawn { x: 30, y: 0, turns: 1 });
    for i in 0..2000 {
        p.change_direction(if i % 7 < 4 { Direction::Left } else { Direction::Right });
        p.tick(&table);
        assert!(p.x <= 30 * SUBPIXELS);
        assert!(p.y <= 20 * SUBPIXELS);
        assert!(p.heading < 360);
    }
}

#[test]
fn player_moves_one_thickness_along_heading() {
    let table = steps(2);
    let mut p = Player::new(9, "p", "#000000", 100, 100, 2, 2);
    p.initialize_at(spawn(50, 50, 90));
    p.tick(&table);
    assert_eq!(p.x, 52_000);
    assert_eq!(p.y, 50_000);
    assert_eq!(p.stop_count, 40);
}

#[test]
fn player_cadence_skips_ticks_for_thick_lines() {
    let table = steps(10);
    let mut p = Player::new(9, "p", "#000000", 100, 100, 10, 2);
    p.initialize_at(spawn(50, 50, 0));
    p.tick(&table);
    assert_eq!(p.y, 60_000);
    assert_eq!(p.stop_count, 200);
    p.tick(&table);
    assert_eq!(p.y, 60_000);
    assert_eq!(p.stop_count, 100);
    p.tick(&table);
    assert_eq!(p.y, 70_000);
}

#[test]
fn player_invisibility_cycle() {
    let table = steps(2);
    let mut p = Player::new(9, "p", "#000000", 1000, 1000, 2, 2);
    p.initialize_at(spawn(500, 10, 0));
    p.invisible_max = 10;
    p.invisible_count = 10;
    let mut seen = vec![];
    for _ in 0..15 {
        p.tick(&table);
        seen.push(p.invisible);
    }
    let expected = vec![
        false, false, false, false, false, false, false, false, false, true, true, true, true,
        false, false,
    ];
    assert_eq!(seen, expected);
}

#[test]
fn player_initialize_keeps_margins() {
    for _ in 0..50 {
        let mut p = Player::new(9, "p", "#000000", 1000, 800, 2, 2);
        p.initialize();
        assert!(p.x >= 150 * SUBPIXELS && p.x < 850 * SUBPIXELS);
        assert!(p.y >= 120 * SUBPIXELS && p.y < 680 * SUBPIXELS);
        assert_eq!(p.x % SUBPIXELS, 0);
        assert_eq!(p.heading % 2, 0);
        assert!(!p.invisible);
        assert_eq!(p.direction, Direction::Unchanged);
    }
}

#[test]
fn pixel_range_windows() {
    assert_eq!(pixel_range(5_500, 2, 100), Some(Span { start: 4, end: 6 }));
    assert_eq!(pixel_range(0, 2, 100), None);
    assert_eq!(pixel_range(999, 2, 100), None);
    assert_eq!(pixel_range(1_000, 2, 100), Some(Span { start: 0, end: 2 }));
    assert_eq!(pixel_range(99_000, 2, 100), Some(Span { start: 98, end: 100 }));
    assert_eq!(pixel_range(100_000, 2, 100), None);
    assert_eq!(pixel_range(7_000, 3, 100), Some(Span { start: 6, end: 9 }));
}

#[test]
fn on_move_rejects_unknown_and_steers_active() {
    let mut g = game_with(2);
    g.initialize_at(&vec![spawn(30, 30, 0), spawn(70, 70, 180)]);
    assert_eq!(g.on_move(77, Direction::Left), Err(GameError::PlayerNotFound(77)));
    assert_eq!(g.on_move(1, Direction::Left), Ok(()));
    g.tick();
    assert_eq!(g.players[0].heading, 2);
    assert_eq!(g.players[1].heading, 180);
    assert_eq!(g.on_move(2, Direction::Right), Ok(()));
    g.tick();
    assert_eq!(g.players[1].heading, 178);
}

#[test]
fn on_move_rejects_eliminated_player() {
    let mut g = game_with(3);
    g.initialize_at(&vec![spawn(1, 50, 270), spawn(30, 30, 0), spawn(70, 70, 180)]);
    g.tick();
    assert!(!g.active[0]);
    assert_eq!(g.on_move(1, Direction::Left), Err(GameError::PlayerNotFound(1)));
}

#[test]
fn wall_contact_eliminates() {
    let mut g = game_with(2);
    g.initialize_at(&vec![spawn(5, 50, 270), spawn(50, 20, 0)]);
    for _ in 0..2 {
        g.tick();
        assert!(g.active[0]);
    }
    g.tick();
    assert_eq!(g.players[0].x, 0);
    assert!(!g.active[0]);
    assert!(g.active[1]);
    assert!(!g.running());
    assert_eq!(g.players[0].points, 1);
    assert_eq!(g.players[1].points, 2);
    assert_eq!(g.get_winner(), Some(2));
}

#[test]
fn head_on_collision_eliminates_both() {
    let mut g = game_with(3);
    g.initialize_at(&vec![spawn(40, 50, 90), spawn(46, 50, 270), spawn(20, 10, 0)]);
    g.tick();
    assert!(g.active[0] && g.active[1]);
    g.tick();
    assert!(!g.active[0]);
    assert!(!g.active[1]);
    assert!(g.active[2]);
    assert_eq!(g.players[0].points, 1);
    assert_eq!(g.players[1].points, 2);
    assert_eq!(g.players[2].points, 4);
    assert_eq!(g.get_winner(), Some(3));
}

#[test]
fn crossing_a_trail_eliminates() {
    let mut g = game_with(2);
    g.initialize_at(&vec![spawn(50, 40, 0), spawn(40, 45, 90)]);
    let mut rounds = 0;
    while g.active[0] && g.active[1] && rounds < 20 {
        g.tick();
        rounds += 1;
    }
    assert!(g.active[0]);
    assert!(!g.active[1]);
}

#[test]
fn later_eliminations_earn_more() {
    let mut g = game_with(3);
    g.initialize_at(&vec![spawn(3, 50, 270), spawn(7, 30, 270), spawn(50, 70, 0)]);
    for _ in 0..4 {
        g.tick();
    }
    assert!(!g.active[0] && !g.active[1] && g.active[2]);
    assert_eq!(g.players[0].points, 1);
    assert_eq!(g.players[1].points, 2);
    assert!(g.players[1].points > g.players[0].points);
    assert_eq!(g.players[2].points, 4);
    assert!(g.players[2].points > g.players[1].points);
}

#[test]
fn single_player_round() {
    let mut g = game_with(1);
    g.initialize_at(&vec![spawn(5, 50, 270)]);
    assert!(g.single_player);
    assert!(g.running());
    assert_eq!(g.get_winner(), None);
    for _ in 0..3 {
        g.tick();
    }
    assert!(!g.active[0]);
    assert!(!g.running());
    assert_eq!(g.players[0].points, 0);
    assert_eq!(g.get_winner(), Some(1));
}

#[test]
fn invisible_player_leaves_no_trail() {
    let mut g = game_with(2);
    g.initialize_at(&vec![spawn(50, 20, 0), spawn(80, 80, 0)]);
    g.players[0].invisible = true;
    g.players[0].invisible_count = 100;
    g.tick();
    assert!(g.grid.data.iter().all(|row| row.iter().all(|c| *c != 1)));
    assert!(g.grid.data[80].iter().any(|c| *c == 2) || g.grid.data[81].iter().any(|c| *c == 2));
}

#[test]
fn state_and_state_ended() {
    let mut g = game_with(3);
    g.initialize_at(&vec![spawn(1, 50, 270), spawn(30, 30, 0), spawn(70, 70, 180)]);
    let st = g.state();
    assert_eq!(st.len(), 3);
    assert_eq!(st[1], PlayerState { id: 2, x: 30_000, y: 30_000, invisible: false });
    g.tick();
    let st = g.state();
    assert_eq!(st.iter().map(|s| s.id).collect::<Vec<_>>(), vec![2, 3]);
    assert_eq!(g.state_ended(), vec![(1, 1), (2, 0), (3, 0)]);
}

#[test]
fn initialize_resets_round() {
    let mut g = game_with(2);
    g.initialize_at(&vec![spawn(1, 50, 270), spawn(50, 50, 0)]);
    g.tick();
    assert!(!g.active[0]);
    g.initialize();
    assert!(g.active.iter().all(|a| *a));
    assert!(!g.single_player);
    assert!(g.grid.data.iter().all(|row| row.iter().all(|c| *c == 0)));
    assert!(g.running());
}

#[test]
fn remove_player_drops_it() {
    let mut g = game_with(3);
    g.remove_player(2);
    assert_eq!(g.players.iter().map(|p| p.uuid).collect::<Vec<_>>(), vec![1, 3]);
    assert_eq!(g.active.len(), 2);
    g.remove_player(42);
    assert_eq!(g.players.len(), 2);
}

#[test]
fn same_tick_crossing_eliminates_both() {
    let mut g = game_with(3);
    g.initialize_at(&vec![spawn(40, 50, 90), spawn(44, 50, 270), spawn(20, 10, 0)]);
    g.tick();
    assert_eq!(g.players[0].x, 42_000);
    assert_eq!(g.players[1].x, 42_000);
    assert!(!g.active[0]);
    assert!(!g.active[1]);
    assert!(g.active[2]);
}

#[test]
fn wall_contact_eliminates_thin_lines() {
    let mut g = Game::new(100, 100, 1, 2, steps(1));
    g.add_player(1, "a", "#ffffff");
    g.add_player(2, "b", "#ffffff");
    g.initialize_at(&vec![spawn(3, 50, 270), spawn(50, 20, 0)]);
    g.tick();
    assert!(g.active[0]);
    g.tick();
    assert!(g.active[0]);
    g.tick();
    assert_eq!(g.players[0].x, 0);
    assert!(!g.active[0]);
}

#[test]
fn hitting_the_far_wall_eliminates() {
    let mut g = game_with(2);
    g.initialize_at(&vec![spawn(96, 50, 90), spawn(50, 20, 0)]);
    g.tick();
    assert!(g.active[0]);
    g.tick();
    assert_eq!(g.players[0].x, 100_000);
    assert!(!g.active[0]);
}

#[test]
fn full_game_scores_up_to_two_to_the_sixty_third() {
    let mut g = Game::new(200, 200, 2, 2, steps(2));
    for id in 1..=64u128 {
        g.add_player(id, "p", "#ffffff");
    }
    let spawns: Vec<Spawn> = (0..64).map(|k| spawn(1, 3 * k + 2, 270)).collect();
    g.initialize_at(&spawns);
    g.tick();
    assert!(g.active.iter().all(|a| !*a));
    for k in 0..64 {
        assert_eq!(g.players[k].points, 1u64 << k);
    }
    assert_eq!(g.get_winner(), None);
}
