use tron_core::course::{all_courses, get_course, Course};
use tron_core::game::{Cell, Direction, Game, GameStatus, SteerAction};

fn open_arena() -> Course {
    get_course(1)
}

#[test]
fn catalog_has_five_courses_in_order() {
    let courses = all_courses();
    assert_eq!(courses.len(), 5);
    for (i, c) in courses.iter().enumerate() {
        assert_eq!(c.level as usize, i + 1);
    }
    assert_eq!(courses[0].name, "Open Arena");
    assert_eq!(courses[1].name, "The Maze");
    assert_eq!(courses[2].name, "Narrow Corridors");
    assert_eq!(courses[3].name, "The Gauntlet");
    assert_eq!(courses[4].name, "Chaos");
}

#[test]
fn get_course_clamps_level() {
    assert_eq!(get_course(0).level, 1);
    assert_eq!(get_course(1).level, 1);
    assert_eq!(get_course(5).level, 5);
    let c = get_course(99);
    assert_eq!(c.level, 5);
    assert_eq!(c.name, "Chaos");
    assert_eq!(c.width, 80);
}

#[test]
fn maze_walls_exact() {
    let c = get_course(2);
    assert_eq!(c.width, 40);
    assert_eq!(c.height, 35);
    assert_eq!(c.walls.len(), 58);
    assert_eq!(c.walls[0], (8, 10));
    assert_eq!(c.walls[1], (8, 25));
    assert!(c.walls.contains(&(21, 25)));
    assert!(c.walls.contains(&(15, 19)));
    assert!(c.walls.contains(&(25, 5)));
    assert!(c.walls.contains(&(8, 29)));
    assert!(!c.walls.contains(&(22, 10)));
}

#[test]
fn corridor_walls_have_gaps() {
    let c = get_course(3);
    assert!(c.walls.contains(&(0, 7)));
    assert!(c.walls.contains(&(9, 7)));
    assert!(!c.walls.contains(&(10, 7)));
    assert!(!c.walls.contains(&(15, 7)));
    assert!(c.walls.contains(&(16, 7)));
    assert!(c.walls.contains(&(29, 14)));
    assert!(!c.walls.contains(&(30, 14)));
    assert!(!c.walls.contains(&(40, 14)));
    assert!(c.walls.contains(&(41, 14)));
}

#[test]
fn gauntlet_obstruction_blocks() {
    let c = get_course(4);
    assert_eq!(c.obstructions.len(), 180);
    assert_eq!(c.obstructions[0], (5, 5));
    assert_eq!(c.obstructions[1], (6, 5));
    assert_eq!(c.obstructions[2], (5, 6));
    assert_eq!(c.obstructions[3], (6, 6));
    assert!(c.obstructions.contains(&(53, 29)));
}

#[test]
fn chaos_walls_stay_inside_the_border() {
    let c = get_course(5);
    assert!(c.walls.len() <= 270);
    for &(x, y) in &c.walls {
        assert!(x >= 5 && x < 79, "wall x out of range: {}", x);
        assert!(y >= 5 && y < 79, "wall y out of range: {}", y);
    }
}

#[test]
fn turn_left_four_times_is_identity() {
    for d in [Direction::Up, Direction::Down, Direction::Left, Direction::Right] {
        assert_eq!(d.turn_left().turn_left().turn_left().turn_left(), d);
    }
}

#[test]
fn turn_left_then_right_is_identity() {
    for d in [Direction::Up, Direction::Down, Direction::Left, Direction::Right] {
        assert_eq!(d.turn_left().turn_right(), d);
        assert_eq!(d.turn_right().turn_left(), d);
    }
}

#[test]
fn deltas_and_names() {
    assert_eq!(Direction::Up.delta(), (0, -1));
    assert_eq!(Direction::Down.delta(), (0, 1));
    assert_eq!(Direction::Left.delta(), (-1, 0));
    assert_eq!(Direction::Right.delta(), (1, 0));
    assert_eq!(Direction::Up.name(), "NORTH");
    assert_eq!(Direction::Down.name(), "SOUTH");
    assert_eq!(Direction::Left.name(), "WEST");
    assert_eq!(Direction::Right.name(), "EAST");
}

#[test]
fn new_game_border_is_wall_and_area_is_playable() {
    let c = open_arena();
    let g = Game::new(&c, 1);
    assert_eq!(g.status, GameStatus::WaitingForPlayers);
    for x in 0..c.width {
        assert_eq!(g.grid[0][x], Cell::Wall);
        assert_eq!(g.grid[c.height - 1][x], Cell::Wall);
    }
    for y in 0..c.height {
        assert_eq!(g.grid[y][0], Cell::Wall);
        assert_eq!(g.grid[y][c.width - 1], Cell::Wall);
    }
    // the open arena has no inner walls: the playable area is exactly
    // (width - 2) * (height - 2) empty cells
    let empty = g
        .grid
        .iter()
        .flatten()
        .filter(|c| **c == Cell::Empty)
        .count();
    assert_eq!(empty, (c.width - 2) * (c.height - 2));
}

#[test]
fn add_player_takes_spawn_slots_in_order() {
    let c = open_arena();
    let mut g = Game::new(&c, 1);
    assert_eq!(g.add_player("a".to_string()), Some(0));
    assert_eq!(g.add_player("b".to_string()), Some(1));
    assert_eq!((g.players[0].x, g.players[0].y), (3, 3));
    assert_eq!(g.players[0].direction, Direction::Right);
    assert_eq!((g.players[1].x, g.players[1].y), (26, 26));
    assert_eq!(g.players[1].direction, Direction::Left);
    for i in 2..8 {
        assert_eq!(g.add_player(format!("p{}", i)), Some(i));
    }
    assert_eq!(g.add_player("late".to_string()), None);
}

#[test]
fn start_stamps_spawn_cells() {
    let c = open_arena();
    let mut g = Game::new(&c, 1);
    g.add_player("a".to_string());
    g.add_player("b".to_string());
    g.start();
    assert_eq!(g.status, GameStatus::Running);
    assert_eq!(g.grid[3][3], Cell::Trail(0));
    assert_eq!(g.grid[26][26], Cell::Trail(1));
}

#[test]
fn tick_moves_and_lays_trail() {
    let c = open_arena();
    let mut g = Game::new(&c, 1);
    g.add_player("a".to_string());
    g.start();
    g.tick();
    assert_eq!(g.tick, 1);
    assert_eq!((g.players[0].x, g.players[0].y), (4, 3));
    assert_eq!(g.players[0].distance_traveled, 1);
    assert_eq!(g.players[0].trail.front(), Some(&(3, 3)));
    assert_eq!(g.grid[3][4], Cell::Trail(0));
    assert_eq!(g.grid[3][3], Cell::Trail(0));
    // a solo match never auto-finishes while its player lives
    assert_eq!(g.status, GameStatus::Running);
}

#[test]
fn tick_applies_queued_steering() {
    let c = open_arena();
    let mut g = Game::new(&c, 1);
    g.add_player("a".to_string());
    g.start();
    g.apply_action(0, SteerAction::Left);
    g.tick();
    assert_eq!(g.players[0].direction, Direction::Up);
    assert_eq!((g.players[0].x, g.players[0].y), (3, 2));
    assert_eq!(g.players[0].pending_action, None);
}

#[test]
fn head_on_collision_kills_both() {
    let c = open_arena();
    let mut g = Game::new(&c, 1);
    g.add_player("a".to_string());
    g.add_player("b".to_string());
    g.start();
    // stand the two cycles two cells apart, facing each other
    g.players[0].x = 10;
    g.players[0].y = 10;
    g.players[0].direction = Direction::Right;
    g.players[1].x = 12;
    g.players[1].y = 10;
    g.players[1].direction = Direction::Left;
    g.grid[10][10] = Cell::Trail(0);
    g.grid[10][12] = Cell::Trail(1);
    g.tick();
    assert!(!g.players[0].alive);
    assert!(!g.players[1].alive);
    assert_eq!(g.status, GameStatus::Finished);
    assert_eq!(g.winner, None);
    assert!(g.finished_at.is_some());
}

#[test]
fn last_survivor_wins() {
    let c = open_arena();
    let mut g = Game::new(&c, 1);
    g.add_player("a".to_string());
    g.add_player("b".to_string());
    g.start();
    // the second cycle stares straight into the left border wall
    g.players[1].x = 1;
    g.players[1].y = 10;
    g.players[1].direction = Direction::Left;
    g.grid[10][1] = Cell::Trail(1);
    g.tick();
    assert!(!g.players[1].alive);
    assert!(g.players[0].alive);
    assert_eq!(g.status, GameStatus::Finished);
    assert_eq!(g.winner, Some(0));
    // tick 1: distance 1, speed bonus capped at 200
    assert_eq!(g.players[0].score, 100 + 1 + 200);
}

#[test]
fn winner_score_formula() {
    let c = open_arena();
    let mut g = Game::new(&c, 1);
    g.add_player("a".to_string());
    g.add_player("b".to_string());
    g.start();
    g.tick = 19;
    g.players[0].distance_traveled = 49;
    g.players[1].x = 1;
    g.players[1].y = 10;
    g.players[1].direction = Direction::Left;
    g.grid[10][1] = Cell::Trail(1);
    g.tick();
    assert_eq!(g.tick, 20);
    assert_eq!(g.players[0].distance_traveled, 50);
    // 100 + 50 + min(200, 1000 / 20) = 200
    assert_eq!(g.players[0].score, 200);
}

#[test]
fn trail_never_exceeds_cap_and_evicted_cells_clear() {
    let mut c = open_arena();
    c.max_trail_length = 2;
    let mut g = Game::new(&c, 1);
    g.add_player("a".to_string());
    g.start();
    for _ in 0..5 {
        g.tick();
        assert!(g.players[0].trail.len() <= 2);
        let tagged = g
            .grid
            .iter()
            .flatten()
            .filter(|cell| **cell == Cell::Trail(0))
            .count();
        assert!(tagged <= 3, "too many tagged cells: {}", tagged);
    }
    // the spawn cell was evicted and cleared long ago
    assert_eq!(g.grid[3][3], Cell::Empty);
}

#[test]
fn solo_match_runs_until_its_player_crashes() {
    let c = open_arena();
    let mut g = Game::new(&c, 1);
    g.add_player("a".to_string());
    g.start();
    for _ in 0..10 {
        g.tick();
    }
    assert_eq!(g.status, GameStatus::Running);
    // 25 steps from x=3 reach x=28; the next one hits the border wall
    for _ in 0..16 {
        g.tick();
    }
    assert_eq!(g.status, GameStatus::Finished);
    assert_eq!(g.winner, None);
    assert!(!g.players[0].alive);
}
