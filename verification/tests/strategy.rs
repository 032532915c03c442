use std::cell::RefCell;
use anglerfry::search::Limits;
use anglerfry::strategy::{info_line, Info, Strategy};
use anglerfry::span::Span;
use anglerfry::uci::parse::Go;
use cozy_chess::util::{display_uci_move, parse_uci_move};
use cozy_chess::{Board, GameStatus};

#[test]
fn names_round_trip() {
    for strategy in Strategy::all() {
        assert_eq!(Strategy::from_name(strategy.name()), Some(strategy));
    }
    assert_eq!(Strategy::from_name("nonsense"), None);
}

#[test]
fn offers_every_strategy() {
    assert_eq!(
        Strategy::option(),
        "option name Strategy type combo default random var random var two-ply"
    );
}

/// Picks with every strategy, checking that the answer is one of the named moves.
#[test]
fn every_strategy_answers_within_searchmoves() {
    let board = Board::startpos();
    let limits = Limits::new(
        &Go {
            depth: Some(2),
            search_moves: ["a2a3", "h2h3"].map(str::to_owned).into(),
            ..Go::default()
        },
        &board,
    );
    for strategy in Strategy::all() {
        let played = strategy
            .pick(&board, &limits, &mut Vec::new(), &|_: &Info| {}, &|n: u64| limits.spent(n))
            .expect("a legal move");
        let played = display_uci_move(&board, played).to_string();
        assert!(["a2a3", "h2h3"].contains(&played.as_str()), "{played}");
    }
}

/// Plays both strategies against each other, checking that every move they pick is legal.
#[test]
fn self_play_stays_legal() {
    let mut board = Board::startpos();
    let limits = Limits::new(
        &Go {
            depth: Some(2),
            ..Go::default()
        },
        &board,
    );
    for ply in 0..40 {
        if board.status() != GameStatus::Ongoing {
            break;
        }
        let strategy = if ply % 2 == 0 {
            Strategy::Random
        } else {
            Strategy::TwoPly
        };
        let played = strategy
            .pick(&board, &limits, &mut Vec::new(), &|_: &Info| {}, &|n: u64| limits.spent(n))
            .expect("a legal move");
        assert!(board.is_legal(played));
        board.play_unchecked(played);
    }
}

#[test]
fn names_match_without_ascii_case() {
    assert_eq!(Strategy::from_name("TWO-PLY"), Some(Strategy::TwoPly));
    assert_eq!(Strategy::from_name("Random"), Some(Strategy::Random));
    assert_eq!(Strategy::from_name("two_ply"), None);
    assert_eq!(Strategy::from_name(""), None);
    assert_eq!(Strategy::default(), Strategy::Random);
}

#[test]
fn every_strategy_reports_the_move_it_returns() {
    let board = Board::startpos();
    let limits = Limits::new(
        &Go {
            depth: Some(1),
            ..Go::default()
        },
        &board,
    );
    for strategy in Strategy::all() {
        let mut infos = Vec::new();
        let played = strategy.pick(&board, &limits, &mut infos, &|_: &Info| {}, &|n: u64| limits.spent(n)).expect("a legal move");
        assert!(!infos.is_empty());
        assert_eq!(infos.last().unwrap().best, played);
    }
}

#[test]
fn random_reports_one_ply_and_one_node() {
    let board = Board::startpos();
    let limits = Limits::new(
        &Go {
            search_moves: vec!["g1f3".to_owned()],
            ..Go::default()
        },
        &board,
    );
    let mut infos = Vec::new();
    let played = Strategy::Random.pick(&board, &limits, &mut infos, &|_: &Info| {}, &|n: u64| limits.spent(n)).unwrap();
    assert_eq!(display_uci_move(&board, played).to_string(), "g1f3");
    assert_eq!(infos.len(), 1);
    assert_eq!(
        info_line(&board, &infos[0]),
        "info depth 1 time 0 nodes 1 score cp 0 pv g1f3"
    );
}

#[test]
fn no_strategy_answers_in_a_finished_game() {
    let board = Board::from_fen("7k/5KQ1/8/8/8/8/8/8 b - - 0 1", false).unwrap();
    let limits = Limits::new(&Go::default(), &board);
    for strategy in Strategy::all() {
        let mut infos = Vec::new();
        assert_eq!(strategy.pick(&board, &limits, &mut infos, &|_: &Info| {}, &|n: u64| limits.spent(n)), None);
        assert!(infos.is_empty());
    }
}

#[test]
fn writes_an_info_line() {
    let board = Board::from_fen("4k3/8/8/8/8/8/8/4K2R w K - 0 1", false).unwrap();
    let castle = parse_uci_move(&board, "e1g1").unwrap();
    let info = Info {
        depth: 3,
        score: -1250,
        nodes: 40_321,
        elapsed: Span::from_millis(1_234),
        best: castle,
    };
    assert_eq!(
        info_line(&board, &info),
        "info depth 3 time 1234 nodes 40321 score cp -1250 pv e1g1"
    );
}

#[test]
fn hands_each_report_out_as_it_is_made() {
    let board = Board::startpos();
    let limits = Limits::new(
        &Go {
            depth: Some(2),
            ..Go::default()
        },
        &board,
    );
    for strategy in Strategy::all() {
        let handed = RefCell::new(Vec::new());
        let mut infos = Vec::new();
        strategy
            .pick(&board, &limits, &mut infos, &|info: &Info| {
                handed.borrow_mut().push(info_line(&board, info))
            }, &|n: u64| limits.spent(n))
            .expect("a legal move");
        let kept: Vec<String> = infos.iter().map(|info| info_line(&board, info)).collect();
        assert_eq!(handed.into_inner(), kept);
    }
}
