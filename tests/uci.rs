use chess_engine::uci::{parse_line, Command};

#[test]
fn reads_simple_commands() {
    assert!(matches!(parse_line("uci"), Command::Uci));
    assert!(matches!(parse_line("  isready "), Command::IsReady));
    assert!(matches!(parse_line("ucinewgame"), Command::UciNewGame));
    assert!(matches!(parse_line("stop"), Command::Stop));
    assert!(matches!(parse_line("quit"), Command::Quit));
    match parse_line("hello there") {
        Command::Unknown(s) => assert_eq!(s, "hello there"),
        other => panic!("unexpected {other:?}"),
    }
}

#[test]
fn reads_position_commands() {
    match parse_line("position startpos moves e2e4 e7e5") {
        Command::Position(p) => {
            assert!(p.fen.is_none());
            assert_eq!(p.moves, vec!["e2e4".to_string(), "e7e5".to_string()]);
        }
        other => panic!("unexpected {other:?}"),
    }
    match parse_line("position fen 8/8/8/8/8/8/8/8 w - - 0 1 moves a2a3") {
        Command::Position(p) => {
            assert_eq!(p.fen.as_deref(), Some("8/8/8/8/8/8/8/8 w - - 0 1"));
            assert_eq!(p.moves, vec!["a2a3".to_string()]);
        }
        other => panic!("unexpected {other:?}"),
    }
    assert!(matches!(parse_line("position fen 8/8/8/8 w"), Command::Unknown(_)));
    assert!(matches!(parse_line("position"), Command::Unknown(_)));
}

#[test]
fn reads_go_limits() {
    match parse_line("go depth 5 wtime 1000 binc x movetime") {
        Command::Go(g) => {
            assert_eq!(g.depth, Some(5));
            assert_eq!(g.wtime, Some(1000));
            assert_eq!(g.binc, None);
            assert_eq!(g.movetime, None);
        }
        other => panic!("unexpected {other:?}"),
    }
}
