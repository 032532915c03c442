use std::sync::atomic::Ordering;

use anglerfry::search::{
    allowance_fits_in, best_move, budget, expiry, max_budget, min_budget, Limits,
};
use anglerfry::span::Span;
use anglerfry::uci::parse::Go;
use cozy_chess::util::{display_uci_move, parse_uci_move};
use cozy_chess::Board;

/// The limits of a `go` at the initial position.
fn limits_of(go: &Go) -> Limits {
    Limits::new(go, &Board::startpos())
}

/// The limits of a `go` with `depth` plies asked for and nothing else.
fn to_depth(depth: u8) -> Limits {
    limits_of(&Go {
        depth: Some(depth),
        ..Go::default()
    })
}

#[test]
fn spends_a_slice_of_the_clock() {
    assert_eq!(
        budget(Span::from_secs(120), Span::from_secs(2), None),
        Span::from_secs(5)
    );
}

#[test]
fn spends_more_when_the_moves_ahead_are_counted() {
    assert_eq!(
        budget(Span::from_secs(60), Span::zero(), Some(10)),
        Span::from_secs(6)
    );
}

#[test]
fn caps_the_time_spent_on_one_move() {
    assert_eq!(
        budget(Span::from_secs(3600), Span::zero(), None),
        max_budget()
    );
}

#[test]
fn stays_within_the_clock() {
    assert_eq!(
        budget(Span::from_millis(60), Span::from_secs(10), None),
        min_budget()
    );
}

#[test]
fn runs_until_stopped_only_without_any_bound() {
    assert!(limits_of(&Go::default()).infinite);
    assert!(
        limits_of(&Go {
            infinite: true,
            ..Go::default()
        })
        .infinite
    );
    assert!(!to_depth(3).infinite);
}

#[test]
fn searches_a_mate_to_a_bounded_depth() {
    let limits = limits_of(&Go {
        mate: Some(2),
        ..Go::default()
    });
    assert_eq!(limits.depth, Some(4));
    assert!(!limits.infinite);
}

#[test]
fn keeps_only_the_searchmoves_that_can_be_played() {
    let limits = limits_of(&Go {
        search_moves: ["e2e4", "e2e5", "nonsense"].map(str::to_owned).into(),
        ..Go::default()
    });
    let board = Board::startpos();
    assert_eq!(limits.search_moves.len(), 1);
    assert_eq!(
        display_uci_move(&board, limits.search_moves[0]).to_string(),
        "e2e4"
    );
}

#[test]
fn expires_at_the_deadline() {
    let limits = limits_of(&Go {
        movetime: Some(Span::zero()),
        ..Go::default()
    });
    assert!(limits.expired());
}

#[test]
fn expires_when_stopped() {
    let limits = to_depth(3);
    assert!(!limits.expired());
    limits.stop.store(true, Ordering::Relaxed);
    assert!(limits.expired());
}

#[test]
fn reports_castling_the_way_guis_write_it() {
    let board = Board::from_fen("4k3/8/8/8/8/8/8/4K2R w K - 0 1", false).unwrap();
    let castle = parse_uci_move(&board, "e1g1").unwrap();
    assert_eq!(best_move(&board, Some(castle)), "bestmove e1g1");
    assert_eq!(best_move(&board, None), "bestmove 0000");
}

#[test]
fn expires_when_the_nodes_run_out() {
    let limits = limits_of(&Go {
        nodes: Some(100),
        ..Go::default()
    });
    assert!(!limits.spent(99));
    assert!(limits.spent(100));
}

#[test]
fn budget_never_leaves_its_bounds() {
    for secs in [0u64, 1, 2, 30, 300, 3600, 100_000] {
        for inc in [0u64, 1, 5, 60] {
            for moves in [None, Some(0u32), Some(1), Some(10), Some(40)] {
                let spent = budget(Span::from_secs(secs), Span::from_secs(inc), moves);
                assert!(spent.nanos >= min_budget().nanos);
                assert!(spent.nanos <= max_budget().nanos);
            }
        }
    }
}

#[test]
fn counts_a_missing_increment_as_none() {
    let limits = limits_of(&Go {
        white_time: Some(Span::from_secs(120)),
        ..Go::default()
    });
    assert_eq!(limits.allowance, Some(Span::from_secs(4)));
    assert!(!limits.infinite);
}

#[test]
fn takes_the_clock_of_the_side_to_move() {
    let board = Board::from_fen("4k3/8/8/8/8/8/8/4K3 b - - 0 1", false).unwrap();
    let go = Go {
        white_time: Some(Span::from_secs(3000)),
        black_time: Some(Span::from_secs(60)),
        black_increment: Some(Span::from_secs(2)),
        ..Go::default()
    };
    let limits = Limits::new(&go, &board);
    assert_eq!(limits.allowance, Some(Span::from_secs(3)));
}

#[test]
fn prefers_a_move_time_to_the_clock() {
    let limits = limits_of(&Go {
        movetime: Some(Span::from_millis(500)),
        white_time: Some(Span::from_secs(60)),
        ..Go::default()
    });
    assert_eq!(limits.allowance, Some(Span::from_millis(500)));
}

#[test]
fn saturates_a_deep_mate() {
    let limits = limits_of(&Go {
        mate: Some(200),
        ..Go::default()
    });
    assert_eq!(limits.depth, Some(255));
    let limits = limits_of(&Go {
        mate: Some(2),
        depth: Some(7),
        ..Go::default()
    });
    assert_eq!(limits.depth, Some(7));
}

#[test]
fn refuses_a_clock_beyond_what_a_duration_holds() {
    let board = Board::startpos();
    let huge = Go {
        white_time: Some(Span { nanos: u128::MAX }),
        moves_to_go: Some(1),
        ..Go::default()
    };
    assert!(!allowance_fits_in(&huge, &board));
    let fine = Go {
        white_time: Some(Span::from_millis(u64::MAX)),
        white_increment: Some(Span::from_millis(u64::MAX)),
        moves_to_go: Some(1),
        ..Go::default()
    };
    assert!(allowance_fits_in(&fine, &board));
}

#[test]
fn checks_that_the_named_moves_are_legal() {
    let board = Board::startpos();
    let limits = limits_of(&Go {
        search_moves: vec!["e2e4".to_owned(), "g1f3".to_owned()],
        ..Go::default()
    });
    assert!(limits.moves_legal_in(&board));
    let after = Board::from_fen("4k3/8/8/8/8/8/8/4K3 w - - 0 1", false).unwrap();
    assert!(!limits.moves_legal_in(&after));
}

#[test]
fn expires_once_stopped_or_out_of_time() {
    let second = Some(Span::from_secs(1));
    assert!(expiry(true, Span::zero(), None));
    assert!(!expiry(false, Span::from_secs(1000), None));
    assert!(!expiry(false, Span::from_millis(999), second));
    assert!(expiry(false, Span::from_millis(1000), second));
    assert!(expiry(true, Span::zero(), second));
}

#[test]
fn is_spent_by_nodes_or_by_expiry() {
    let limits = to_depth(3);
    assert!(!limits.spent_given(u64::MAX, false));
    assert!(limits.spent_given(0, true));
    let counted = limits_of(&Go {
        nodes: Some(10),
        ..Go::default()
    });
    assert!(!counted.spent_given(9, false));
    assert!(counted.spent_given(10, false));
    assert!(counted.spent_given(9, true));
}

#[test]
fn withholds_the_move_only_while_running_until_stopped() {
    let limits = limits_of(&Go::default());
    assert!(limits.withholds());
    limits.stop.store(true, Ordering::Relaxed);
    assert!(!limits.withholds());
    assert!(!to_depth(3).withholds());
    let timed = limits_of(&Go {
        movetime: Some(Span::zero()),
        infinite: true,
        ..Go::default()
    });
    assert!(!timed.withholds());
}
