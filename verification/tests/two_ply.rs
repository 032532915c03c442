use anglerfry::strategy::Info;
use anglerfry::search::Limits;
use anglerfry::strategy::two_ply::{evaluate, pick, value};
use anglerfry::chess::PieceKind;
use anglerfry::uci::parse::Go;
use cozy_chess::util::display_uci_move;
use cozy_chess::Board;

/// The move picked in the position `fen`, searched `depth` plies.
fn pick_in(fen: &str, depth: u8) -> Option<String> {
    let board = Board::from_fen(fen, false).unwrap();
    let limits = Limits::new(
        &Go {
            depth: Some(depth),
            ..Go::default()
        },
        &board,
    );
    let played = pick(&board, &limits, &mut Vec::new(), &|_: &Info| {}, &|n: u64| limits.spent(n))?;
    Some(display_uci_move(&board, played).to_string())
}

#[test]
fn counts_material_for_the_side_to_move() {
    let board = Board::from_fen("4k3/8/8/8/8/8/8/3QK3 b - - 0 1", false).unwrap();
    assert_eq!(evaluate(&board), -900);
}

#[test]
fn takes_the_free_piece() {
    assert_eq!(
        pick_in("4k3/8/8/3q4/4B3/8/8/4K3 w - - 0 1", 2).as_deref(),
        Some("e4d5")
    );
}

#[test]
fn finds_mate_in_one() {
    assert_eq!(
        pick_in(
            "r1bqkb1r/pppp1ppp/2n2n2/4p2Q/2B1P3/8/PPPP1PPP/RNB1K1NR w KQkq - 0 1",
            2
        )
        .as_deref(),
        Some("h5f7")
    );
}

#[test]
fn has_no_move_when_the_game_is_over() {
    assert_eq!(pick_in("7k/5KQ1/8/8/8/8/8/8 b - - 0 1", 2), None);
}

#[test]
fn values_the_pieces() {
    assert_eq!(value(PieceKind::Pawn), 100);
    assert_eq!(value(PieceKind::Knight), 320);
    assert_eq!(value(PieceKind::Bishop), 330);
    assert_eq!(value(PieceKind::Rook), 500);
    assert_eq!(value(PieceKind::Queen), 900);
    assert_eq!(value(PieceKind::King), 0);
}

#[test]
fn balances_material_between_the_sides() {
    assert_eq!(evaluate(&Board::startpos()), 0);
    let white = Board::from_fen("4k3/8/8/8/8/8/PPP5/1N2K3 w - - 0 1", false).unwrap();
    assert_eq!(evaluate(&white), 620);
    let black = Board::from_fen("4k3/8/8/8/8/8/PPP5/1N2K3 b - - 0 1", false).unwrap();
    assert_eq!(evaluate(&black), -620);
}

#[test]
fn reports_each_completed_depth() {
    let board = Board::from_fen("4k3/8/8/3q4/4B3/8/8/4K3 w - - 0 1", false).unwrap();
    let limits = Limits::new(
        &Go {
            depth: Some(2),
            ..Go::default()
        },
        &board,
    );
    let mut infos = Vec::new();
    let played = pick(&board, &limits, &mut infos, &|_: &Info| {}, &|n: u64| limits.spent(n)).unwrap();
    assert_eq!(infos.len(), 2);
    assert_eq!(infos[0].depth, 1);
    assert_eq!(infos[1].depth, 2);
    assert_eq!(infos[1].best, played);
    assert!(infos[0].nodes < infos[1].nodes);
}

#[test]
fn reports_the_first_move_when_no_depth_completes() {
    let board = Board::startpos();
    let limits = Limits::new(
        &Go {
            nodes: Some(0),
            ..Go::default()
        },
        &board,
    );
    let mut infos = Vec::new();
    let played = pick(&board, &limits, &mut infos, &|_: &Info| {}, &|n: u64| limits.spent(n)).unwrap();
    assert_eq!(infos.len(), 1);
    assert_eq!(infos[0].depth, 0);
    assert_eq!(infos[0].best, played);
    let mut first = Vec::new();
    board.generate_moves(|moves| {
        first.extend(moves);
        true
    });
    assert_eq!(played, first[0]);
}

#[test]
fn searches_no_deeper_than_its_cap() {
    let board = Board::from_fen("4k3/8/8/8/8/8/8/4K2R w K - 0 1", false).unwrap();
    let limits = Limits::new(
        &Go {
            depth: Some(9),
            ..Go::default()
        },
        &board,
    );
    let mut infos = Vec::new();
    pick(&board, &limits, &mut infos, &|_: &Info| {}, &|n: u64| limits.spent(n)).unwrap();
    assert!(infos.iter().all(|info| info.depth <= 4));
    assert_eq!(infos.last().unwrap().depth, 4);
}

#[test]
fn counts_every_position_a_complete_search_visits() {
    let board = Board::startpos();
    let limits = Limits::new(
        &Go {
            depth: Some(2),
            ..Go::default()
        },
        &board,
    );
    let mut infos = Vec::new();
    pick(&board, &limits, &mut infos, &|_: &Info| {}, &|n: u64| limits.spent(n)).unwrap();
    assert_eq!(infos[0].nodes, 20);
    assert_eq!(infos[1].nodes, 20 + 20 + 20 * 20);
}

#[test]
fn reports_every_depth_in_order_when_never_spent() {
    let board = Board::startpos();
    let limits = Limits::new(
        &Go {
            depth: Some(3),
            ..Go::default()
        },
        &board,
    );
    let mut infos = Vec::new();
    let played = pick(&board, &limits, &mut infos, &|_: &Info| {}, &|_: u64| false).unwrap();
    let depths: Vec<u8> = infos.iter().map(|info| info.depth).collect();
    assert_eq!(depths, vec![1, 2, 3]);
    assert_eq!(infos[2].best, played);
}

#[test]
fn falls_back_on_the_first_move_when_always_spent() {
    let board = Board::from_fen("4k3/8/8/3q4/4B3/8/8/4K3 w - - 0 1", false).unwrap();
    let limits = Limits::new(
        &Go {
            depth: Some(2),
            ..Go::default()
        },
        &board,
    );
    let mut infos = Vec::new();
    let played = pick(&board, &limits, &mut infos, &|_: &Info| {}, &|_: u64| true).unwrap();
    assert_eq!(infos.len(), 1);
    assert_eq!(infos[0].depth, 0);
    assert_eq!(infos[0].nodes, 0);
    assert_eq!(infos[0].best, played);
}

#[test]
fn stops_counting_once_the_positions_are_spent() {
    let board = Board::startpos();
    let limits = Limits::new(
        &Go {
            depth: Some(4),
            ..Go::default()
        },
        &board,
    );
    let mut infos = Vec::new();
    let played = pick(&board, &limits, &mut infos, &|_: &Info| {}, &|n: u64| n >= 30).unwrap();
    assert_eq!(infos.len(), 1);
    assert_eq!(infos[0].depth, 1);
    assert_eq!(infos[0].nodes, 20);
    assert_eq!(infos[0].best, played);
}

#[test]
fn reports_no_more_positions_than_the_limit_allows() {
    let board = Board::from_fen("4k3/8/8/3q4/4B3/8/8/4K3 w - - 0 1", false).unwrap();
    let limits = Limits::new(
        &Go {
            depth: Some(4),
            ..Go::default()
        },
        &board,
    );
    for limit in [0u64, 1, 5, 40, 300, 2000] {
        let mut infos = Vec::new();
        pick(&board, &limits, &mut infos, &|_: &Info| {}, &|n: u64| n >= limit).unwrap();
        assert!(!infos.is_empty());
        assert!(infos.iter().all(|info| info.nodes <= limit));
    }
}
