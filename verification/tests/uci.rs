use std::ops::ControlFlow;

use anglerfry::strategy::Strategy;
use anglerfry::uci::parse::{parse, Command, Go};
use anglerfry::uci::{Action, Session};
use cozy_chess::Board;

/// The lines among `actions`.
fn lines(actions: &[Action]) -> Vec<String> {
    actions
        .iter()
        .filter_map(|action| match action {
            Action::Send(line) => Some(line.clone()),
            _ => None,
        })
        .collect()
}

#[test]
fn selects_a_strategy_by_option() {
    let mut session = Session::new();
    session.set_option("Strategy", Some("two-ply"));
    assert_eq!(session.strategy, Strategy::TwoPly);

    session.set_option("Strategy", Some("nonsense"));
    assert_eq!(session.strategy, Strategy::TwoPly);

    session.set_option("Nonsense", Some("random"));
    assert_eq!(session.strategy, Strategy::TwoPly);
}

#[test]
fn takes_the_position_from_the_gui() {
    let mut session = Session::new();
    let Some(command) = parse("position startpos moves d2d4") else {
        panic!("expected a position");
    };
    session.handle(command, &mut Vec::new());
    assert_ne!(session.board, Board::startpos());

    session.handle(Command::NewGame, &mut Vec::new());
    assert_eq!(session.board, Board::startpos());
}

#[test]
fn starts_at_the_initial_position() {
    let session = Session::new();
    assert_eq!(session.board, Board::startpos());
    assert_eq!(session.strategy, Strategy::Random);
}

#[test]
fn introduces_itself() {
    let mut session = Session::new();
    let mut actions = Vec::new();
    assert_eq!(session.handle(Command::Uci, &mut actions), ControlFlow::Continue(()));
    assert_eq!(
        lines(&actions),
        vec![
            "id name Anglerfry 0.1.0".to_owned(),
            "id author Alexander Myodov".to_owned(),
            "option name Strategy type combo default random var random var two-ply".to_owned(),
            "uciok".to_owned(),
        ]
    );
    let mut actions = Vec::new();
    session.handle(Command::IsReady, &mut actions);
    assert_eq!(lines(&actions), vec!["readyok".to_owned()]);
}

#[test]
fn starts_a_search_after_the_last_one_reported() {
    let mut session = Session::new();
    session.set_option("STRATEGY", Some("Two-Ply"));
    let mut actions = Vec::new();
    let go = Go {
        depth: Some(3),
        ..Go::default()
    };
    session.handle(Command::Go(go), &mut actions);
    assert_eq!(actions.len(), 2);
    assert!(matches!(actions[0], Action::FinishSearch));
    match &actions[1] {
        Action::StartSearch {
            strategy,
            board,
            go,
        } => {
            assert_eq!(*strategy, Strategy::TwoPly);
            assert_eq!(*board, Board::startpos());
            assert_eq!(go.depth, Some(3));
        }
        _ => panic!("expected a search to start"),
    }
}

#[test]
fn stops_and_quits() {
    let mut session = Session::new();
    let mut actions = Vec::new();
    assert_eq!(session.handle(Command::Stop, &mut actions), ControlFlow::Continue(()));
    assert_eq!(session.handle(Command::Nothing, &mut actions), ControlFlow::Continue(()));
    assert_eq!(session.handle(Command::Quit, &mut actions), ControlFlow::Break(()));
    assert_eq!(actions.len(), 2);
    assert!(matches!(actions[0], Action::StopSearch));
    assert!(matches!(actions[1], Action::AbandonSearch));
}

#[test]
fn sets_options_through_commands() {
    let mut session = Session::new();
    let mut actions = Vec::new();
    session.handle(parse("setoption name strategy value TWO-PLY").unwrap(), &mut actions);
    assert_eq!(session.strategy, Strategy::TwoPly);
    session.handle(parse("setoption name Strategy").unwrap(), &mut actions);
    assert_eq!(session.strategy, Strategy::TwoPly);
    assert!(actions.is_empty());
}
