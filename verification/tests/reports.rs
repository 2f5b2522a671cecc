use tron_core::course::get_course;
use tron_core::protocol::{parse_command, Command};
use tron_core::game::{parse_steer_action, Cell, Game, SteerAction};
use tron_core::text::{i32_string, str_eq, u32_string, u64_string, usize_string};

#[test]
fn decimal_rendering() {
    assert_eq!(u64_string(0), "0");
    assert_eq!(u64_string(7), "7");
    assert_eq!(u64_string(12345), "12345");
    assert_eq!(u64_string(u64::MAX), "18446744073709551615");
    assert_eq!(u32_string(4294967295), "4294967295");
    assert_eq!(usize_string(30), "30");
    assert_eq!(i32_string(-7), "-7");
    assert_eq!(i32_string(0), "0");
    assert_eq!(i32_string(i32::MIN), "-2147483648");
}

#[test]
fn string_equality_by_characters() {
    assert!(str_eq("abc", "abc"));
    assert!(!str_eq("abc", "abd"));
    assert!(!str_eq("abc", "ab"));
    assert!(str_eq("", ""));
    assert!(str_eq("grüß", "grüß"));
}

#[test]
fn steering_tokens() {
    assert_eq!(parse_steer_action("left"), Some(SteerAction::Left));
    assert_eq!(parse_steer_action("right"), Some(SteerAction::Right));
    assert_eq!(parse_steer_action("straight"), Some(SteerAction::Straight));
    assert_eq!(parse_steer_action("Left"), None);
    assert_eq!(parse_steer_action("up"), None);
    assert_eq!(parse_steer_action(""), None);
}

#[test]
fn protocol_lines_parse() {
    match parse_command("JOIN neo one").unwrap() {
        Command::Join(n) => assert_eq!(n, "neo one"),
        other => panic!("wrong command: {:?}", other),
    }
    match parse_command("join neo").unwrap() {
        Command::Join(n) => assert_eq!(n, "neo"),
        other => panic!("wrong command: {:?}", other),
    }
    match parse_command("look neo extra").unwrap() {
        Command::Look(n) => assert_eq!(n, "neo"),
        other => panic!("wrong command: {:?}", other),
    }
    match parse_command("STEER neo Left").unwrap() {
        Command::Steer(n, a) => {
            assert_eq!(n, "neo");
            assert_eq!(a, SteerAction::Left);
        }
        other => panic!("wrong command: {:?}", other),
    }
    match parse_command("Status neo").unwrap() {
        Command::Status(n) => assert_eq!(n, "neo"),
        other => panic!("wrong command: {:?}", other),
    }
    assert_eq!(parse_command("JOIN").unwrap_err(), "ERROR: JOIN requires a name");
    assert_eq!(
        parse_command("LOOK").unwrap_err(),
        "ERROR: LOOK requires player name"
    );
    assert_eq!(
        parse_command("STEER neo").unwrap_err(),
        "ERROR: STEER requires player name and direction"
    );
    assert_eq!(
        parse_command("STEER neo up").unwrap_err(),
        "ERROR: Direction must be left, right, or straight"
    );
    assert_eq!(
        parse_command("STATUS").unwrap_err(),
        "ERROR: STATUS requires player name"
    );
    assert_eq!(
        parse_command("FLY neo").unwrap_err(),
        "ERROR: Unknown command 'FLY'"
    );
    assert_eq!(parse_command("").unwrap_err(), "ERROR: Unknown command ''");
}

#[test]
fn look_report_shape() {
    let c = get_course(1);
    let mut g = Game::new(&c, 1);
    g.add_player("a".to_string());
    g.add_player("b".to_string());
    g.start();
    let report = g.look(0, 7);
    assert!(report.starts_with("Your light-cycle 'a' is at (3, 3) heading EAST."));
    assert!(report.contains("Distance traveled: 0. Tick: 0."));
    assert!(report.contains("Players alive: 2/2"));
    assert!(report.contains("Grid (15x15 view centered on you):"));
    assert!(report.contains(
        "Legend: @ = you, | = your trail, 1-9 = other players/trails, # = wall, X = obstruction, . = empty"
    ));
    assert!(report.contains("Player 'b': ALIVE (manhattan distance: 46)"));
    assert!(report.contains("@"));
}

#[test]
fn look_report_after_crash() {
    let c = get_course(1);
    let mut g = Game::new(&c, 1);
    g.add_player("a".to_string());
    g.add_player("b".to_string());
    g.start();
    g.players[0].alive = false;
    let report = g.look(0, 7);
    assert!(report.ends_with("YOU HAVE CRASHED! Game over for you."));
}

#[test]
fn web_state_codes_and_id() {
    let c = get_course(1);
    let mut g = Game::new(&c, 42);
    g.add_player("a".to_string());
    g.start();
    let ws = g.to_web_state();
    assert_eq!(ws.id, "42");
    assert_eq!(ws.width, 30);
    assert_eq!(ws.height, 30);
    assert_eq!(ws.grid[0][0], 1);
    assert_eq!(ws.grid[1][1], 0);
    assert_eq!(ws.grid[3][3], 3);
    assert_eq!(ws.players.len(), 1);
    assert_eq!(ws.players[0].name, "a");
    assert_eq!(ws.players[0].index, 0);
    assert!(ws.finished_at.is_none());
}

#[test]
fn web_state_renders_timestamps() {
    let c = get_course(1);
    let mut g = Game::new(&c, 1);
    // a match created at this instant carries a current clock reading
    assert!(g.created_at > 1_500_000_000_000);
    g.created_at = 0;
    g.finished_at = Some(947_638_923_004);
    let ws = g.to_web_state();
    assert_eq!(ws.created_at, "1970-01-01T00:00:00+00:00");
    assert_eq!(ws.finished_at.as_deref(), Some("2000-01-12T01:02:03.004+00:00"));
}

#[test]
fn obstruction_renders_in_look_window() {
    let c = get_course(4);
    let mut g = Game::new(&c, 1);
    g.add_player("a".to_string());
    g.start();
    assert_eq!(g.grid[5][5], Cell::Obstruction);
    let report = g.look(0, 7);
    assert!(report.contains("X"));
}
