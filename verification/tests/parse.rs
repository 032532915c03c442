use anglerfry::span::Span;
use anglerfry::uci::parse::{parse, Command, Go};
use cozy_chess::Board;

/// The board of a `position` command line.
fn board_of(line: &str) -> Option<Board> {
    match parse(line) {
        Some(Command::Position(board)) => Some(board),
        _ => None,
    }
}

/// The limits of a `go` command line.
fn go_of(line: &str) -> Go {
    match parse(line) {
        Some(Command::Go(go)) => go,
        other => panic!("expected a go, got {other:?}"),
    }
}

#[test]
fn reads_a_plain_command() {
    assert_eq!(parse("  isready \n"), Some(Command::IsReady));
}

#[test]
fn drops_unrecognised_leading_tokens() {
    assert_eq!(parse("joho debug on"), Some(Command::Nothing));
}

#[test]
fn rejects_a_line_without_a_command() {
    assert_eq!(parse("what is this"), None);
    assert_eq!(parse(""), None);
}

#[test]
fn reads_an_option_name_and_value_of_several_words() {
    assert_eq!(
        parse("setoption name Clear Hash value two words"),
        Some(Command::SetOption {
            name: "Clear Hash".to_owned(),
            value: Some("two words".to_owned()),
        })
    );
    assert_eq!(
        parse("setoption name Clear Hash"),
        Some(Command::SetOption {
            name: "Clear Hash".to_owned(),
            value: None,
        })
    );
    assert_eq!(parse("setoption value 1"), None);
}

#[test]
fn plays_the_moves_onto_the_position() {
    let board = board_of("position startpos moves e2e4 e7e5").unwrap();
    assert_eq!(
        format!("{board}"),
        "rnbqkbnr/pppp1ppp/8/4p3/4P3/8/PPPP1PPP/RNBQKBNR w KQkq e6 0 2"
    );
}

#[test]
fn reads_castling_in_the_notation_guis_use() {
    let board = board_of("position fen 4k3/8/8/8/8/8/8/4K2R w K - 0 1 moves e1g1").unwrap();
    assert_eq!(format!("{board}"), "4k3/8/8/8/8/8/8/5RK1 b - - 1 1");
}

#[test]
fn rejects_a_position_it_cannot_use() {
    assert_eq!(board_of("position fen 8/8/8/8/8/8/8/8 w - - 0 1"), None);
    assert_eq!(board_of("position fen rubbish"), None);
    assert_eq!(board_of("position startpos moves e2e5"), None);
    assert_eq!(board_of("position elsewhere"), None);
}

#[test]
fn reads_the_clock_of_a_go() {
    assert_eq!(
        go_of("go wtime 300000 btime 299000 winc 2000 binc 2000 movestogo 40"),
        Go {
            white_time: Some(Span::from_secs(300)),
            black_time: Some(Span::from_secs(299)),
            white_increment: Some(Span::from_secs(2)),
            black_increment: Some(Span::from_secs(2)),
            moves_to_go: Some(40),
            ..Go::default()
        }
    );
}

#[test]
fn reads_the_other_limits_of_a_go() {
    assert_eq!(
        go_of("go movetime 500").movetime,
        Some(Span::from_millis(500))
    );
    assert_eq!(go_of("go depth 7 nodes 900").depth, Some(7));
    assert_eq!(go_of("go depth 7 nodes 900").nodes, Some(900));
    assert_eq!(go_of("go mate 2").mate, Some(2));
    assert!(go_of("go infinite").infinite);
    assert!(go_of("go ponder").infinite);
    assert_eq!(go_of("go"), Go::default());
}

#[test]
fn reads_the_moves_a_go_restricts_itself_to() {
    assert_eq!(
        go_of("go searchmoves e2e4 d2d4 depth 3"),
        Go {
            search_moves: vec!["e2e4".to_owned(), "d2d4".to_owned()],
            depth: Some(3),
            ..Go::default()
        }
    );
    assert!(go_of("go searchmoves").search_moves.is_empty());
}

#[test]
fn keeps_the_limits_it_understands_out_of_a_go() {
    assert_eq!(go_of("go movetime nonsense mate nonsense"), Go::default());
}

#[test]
fn reads_the_startpos_unchanged_without_moves() {
    assert_eq!(board_of("position startpos"), Some(Board::startpos()));
    assert_eq!(board_of("position startpos moves"), Some(Board::startpos()));
    assert_eq!(board_of("position startpos e2e4"), None);
    assert_eq!(board_of("position"), None);
}

#[test]
fn reads_the_six_fields_of_a_fen() {
    let board = board_of("position fen 4k3/8/8/8/8/8/8/4K2R b K - 3 7").unwrap();
    assert_eq!(format!("{board}"), "4k3/8/8/8/8/8/8/4K2R b K - 3 7");
    assert_eq!(board_of("position fen 4k3/8/8/8/8/8/8/4K2R b K - 3"), None);
}

#[test]
fn lets_a_later_limit_override_an_earlier_one() {
    assert_eq!(go_of("go depth 3 depth 5").depth, Some(5));
    assert_eq!(go_of("go depth 3 depth x").depth, None);
    assert_eq!(go_of("go depth 256").depth, None);
    assert_eq!(go_of("go depth +9").depth, Some(9));
    assert_eq!(go_of("go nodes -1").nodes, None);
    assert_eq!(go_of("go movestogo 4294967295").moves_to_go, Some(u32::MAX));
    assert_eq!(go_of("go movestogo 4294967296").moves_to_go, None);
}

#[test]
fn reads_the_first_command_of_a_line() {
    assert_eq!(parse("stop quit"), Some(Command::Stop));
    assert_eq!(parse("xyz\tuci"), Some(Command::Uci));
    assert_eq!(parse("ucinewgame"), Some(Command::NewGame));
    assert_eq!(parse("ponderhit"), Some(Command::Nothing));
    assert_eq!(parse("register later"), Some(Command::Nothing));
    assert_eq!(parse("QUIT"), None);
    assert_eq!(parse("quit"), Some(Command::Quit));
}

#[test]
fn ends_the_searchmoves_at_any_keyword() {
    assert_eq!(
        go_of("go searchmoves a2a3 ponder").search_moves,
        vec!["a2a3".to_owned()]
    );
    assert!(go_of("go searchmoves a2a3 ponder").infinite);
    assert_eq!(
        go_of("go wtime 10 searchmoves b1c3 g1f3").search_moves,
        vec!["b1c3".to_owned(), "g1f3".to_owned()]
    );
}

#[test]
fn reads_an_option_without_a_name_as_nothing() {
    assert_eq!(parse("setoption name value x"), None);
    assert_eq!(parse("setoption name"), None);
    assert_eq!(
        parse("setoption name Strategy value"),
        Some(Command::SetOption {
            name: "Strategy".to_owned(),
            value: Some(String::new()),
        })
    );
}

#[test]
fn reads_the_start_position_from_its_fen() {
    assert_eq!(
        board_of("position fen rnbqkbnr/pppppppp/8/8/8/8/PPPPPPPP/RNBQKBNR w KQkq - 0 1"),
        board_of("position startpos")
    );
}
