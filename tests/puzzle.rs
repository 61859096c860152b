use chess_engine::puzzle::{mate_to_path, parse_first_three_fields, parse_puzzle_row};

#[test]
fn parses_sample_puzzle_row() {
    let line = "000rZ,2kr1b1r/p1p2pp1/2pqb3/7p/3N2n1/2NPB3/PPP2PPP/R2Q1RK1 w - - 2 13,d4e6 d6h2,822,85,100,420,kingsideAttack mate mateIn1 oneMove opening,https://lichess.org/seIMDWkD#25,Scandinavian_Defense Scandinavian_Defense_Modern_Variation";

    let puzzle = parse_puzzle_row(line, 1).expect("row parse");

    assert_eq!(puzzle.id, "000rZ");
    assert_eq!(puzzle.fen, "2kr1b1r/p1p2pp1/2pqb3/7p/3N2n1/2NPB3/PPP2PPP/R2Q1RK1 w - - 2 13");
    assert_eq!(puzzle.moves, vec!["d4e6".to_string(), "d6h2".to_string()]);
    assert_eq!(puzzle.mate, 1);
}

#[test]
fn row_needs_three_fields_and_moves() {
    assert!(parse_first_three_fields("a,b").is_err());
    assert_eq!(parse_first_three_fields("a,b,").unwrap(), vec!["a", "b", ""]);
    assert!(parse_puzzle_row("id,fen,   ", 2).unwrap_err().contains("empty"));
    let p = parse_puzzle_row("id,fen,e2e4\r\r", 3).expect("row");
    assert_eq!(p.moves, vec!["e2e4".to_string()]);
}

#[test]
fn mate_paths_name_the_puzzle_files() {
    assert_eq!(mate_to_path(1), "bench/puzzles/mateIn1.csv");
    assert_eq!(mate_to_path(12), "bench/puzzles/mateIn12.csv");
}
