//! The UCI protocol: what a session does with each command from the GUI.
//!
//! A session never blocks on a search: a `go` asks for a search to be started and comes straight
//! back, so that `isready`, `stop` and `quit` stay answerable while the search thinks. What
//! touches the outside world (writing lines, running and stopping searches) is handed out as
//! actions, in the order in which they must be done.

pub mod parse;

use std::ops::ControlFlow;

use cozy_chess::Board;
use vstd::prelude::*;

use crate::chess::{start_board, start_position};
use crate::strategy::{name_of, option_text, strategy_named, Strategy};
use crate::text::{eq_ignore_ascii_case, same_ignoring_ascii_case};
use parse::{Command, Go, GoView};

verus! {

/// The `id name` of this engine.
pub const NAME: &'static str = "Anglerfry 0.1.0";

/// The `id author` of this engine.
pub const AUTHOR: &'static str = "Alexander Myodov";

/// What a session asks of the world around it.
pub enum Action {
    /// Write this line to the GUI.
    Send(String),
    /// Ask the search in flight, if any, to report its best move now.
    StopSearch,
    /// Stop the search in flight, if any, and wait until it has reported.
    FinishSearch,
    /// Stop the search in flight, if any, without waiting for it.
    AbandonSearch,
    /// Start searching `board` with `strategy`, within the limits of `go` counted from now.
    StartSearch { strategy: Strategy, board: Board, go: Go },
}

/// An `Action` with its texts as sequences of characters.
pub enum ActionView {
    Send(Seq<char>),
    StopSearch,
    FinishSearch,
    AbandonSearch,
    StartSearch { strategy: Strategy, board: Board, go: GoView },
}

impl View for Action {
    type V = ActionView;

    open spec fn view(&self) -> ActionView {
        match self {
            Action::Send(line) => ActionView::Send(line@),
            Action::StopSearch => ActionView::StopSearch,
            Action::FinishSearch => ActionView::FinishSearch,
            Action::AbandonSearch => ActionView::AbandonSearch,
            Action::StartSearch { strategy, board, go } => ActionView::StartSearch {
                strategy: *strategy,
                board: *board,
                go: go@,
            },
        }
    }
}

/// The views of a list of actions.
pub open spec fn action_views(actions: Seq<Action>) -> Seq<ActionView> {
    actions.map_values(|a: Action| a@)
}

/// The lines that answer `uci`: the engine's name and author, its option, and `uciok`.
pub open spec fn identification() -> Seq<ActionView> {
    seq![
        ActionView::Send("id name "@ + NAME@),
        ActionView::Send("id author "@ + AUTHOR@),
        ActionView::Send(option_text()),
        ActionView::Send("uciok"@),
    ]
}

/// The strategy a `setoption` leaves: the one its value names where it sets the strategy option
/// (ASCII case aside) to a known strategy; unknown names and values are dropped.
pub open spec fn strategy_after(current: Strategy, name: Seq<char>, value: Option<Seq<char>>) -> Strategy {
    if !same_ignoring_ascii_case(name, Strategy::OPTION@) {
        current
    } else {
        match value {
            Some(v) => match strategy_named(v) {
                Some(chosen) => chosen,
                None => current,
            },
            None => current,
        }
    }
}

/// Setting the strategy option to a strategy's name selects that strategy, whatever was selected
/// before.
pub proof fn lemma_option_selects_named_strategy(current: Strategy, chosen: Strategy)
    ensures
        strategy_after(current, Strategy::OPTION@, Some(name_of(chosen))) == chosen,
{
    crate::strategy::lemma_names_round_trip(chosen);
}

/// The state a UCI session carries between commands.
pub struct Session {
    /// The position the next search starts from.
    pub board: Board,
    /// The way the next search picks its move.
    pub strategy: Strategy,
}

impl Session {
    /// A session at the initial position, with the default strategy.
    pub fn new() -> (session: Session)
        ensures
            session.board == start_board(),
            session.strategy == Strategy::Random,
    {
        Session { board: start_position(), strategy: Strategy::default() }
    }

    /// Acts on one command, adding to `actions` what it asks of the world, and breaking once the
    /// session is over.
    pub fn handle(&mut self, command: Command, actions: &mut Vec<Action>) -> (flow: ControlFlow<()>)
        ensures
            flow is Break <==> command is Quit,
            match command@ {
                parse::CommandView::Uci => {
                    &&& action_views(final(actions)@) == action_views(old(actions)@)
                        + identification()
                    &&& *final(self) == *old(self)
                },
                parse::CommandView::IsReady => {
                    &&& action_views(final(actions)@) == action_views(old(actions)@).push(
                        ActionView::Send("readyok"@),
                    )
                    &&& *final(self) == *old(self)
                },
                parse::CommandView::SetOption { name, value } => {
                    &&& final(actions)@ == old(actions)@
                    &&& final(self).board == old(self).board
                    &&& final(self).strategy == strategy_after(old(self).strategy, name, value)
                },
                parse::CommandView::NewGame => {
                    &&& action_views(final(actions)@) == action_views(old(actions)@).push(
                        ActionView::FinishSearch,
                    )
                    &&& final(self).board == start_board()
                    &&& final(self).strategy == old(self).strategy
                },
                parse::CommandView::Position(board) => {
                    &&& final(actions)@ == old(actions)@
                    &&& final(self).board == board
                    &&& final(self).strategy == old(self).strategy
                },
                parse::CommandView::Go(go) => {
                    &&& action_views(final(actions)@) == action_views(old(actions)@).push(
                        ActionView::FinishSearch,
                    ).push(
                        ActionView::StartSearch {
                            strategy: old(self).strategy,
                            board: old(self).board,
                            go,
                        },
                    )
                    &&& *final(self) == *old(self)
                },
                parse::CommandView::Stop => {
                    &&& action_views(final(actions)@) == action_views(old(actions)@).push(
                        ActionView::StopSearch,
                    )
                    &&& *final(self) == *old(self)
                },
                parse::CommandView::Quit => {
                    &&& action_views(final(actions)@) == action_views(old(actions)@).push(
                        ActionView::AbandonSearch,
                    )
                    &&& *final(self) == *old(self)
                },
                parse::CommandView::Nothing => {
                    &&& final(actions)@ == old(actions)@
                    &&& *final(self) == *old(self)
                },
            },
    {
        let ghost before = action_views(actions@);
        match command {
            Command::Uci => {
                let mut name = String::from_str("id name ");
                name.append(NAME);
                actions.push(Action::Send(name));
                let mut author = String::from_str("id author ");
                author.append(AUTHOR);
                actions.push(Action::Send(author));
                actions.push(Action::Send(Strategy::option()));
                actions.push(Action::Send(String::from_str("uciok")));
                assert(action_views(actions@) == before + identification());
            },
            Command::IsReady => {
                actions.push(Action::Send(String::from_str("readyok")));
                assert(action_views(actions@) == before.push(ActionView::Send("readyok"@)));
            },
            Command::SetOption { name, value } => {
                match value {
                    Some(value) => self.set_option(name.as_str(), Some(value.as_str())),
                    None => self.set_option(name.as_str(), None),
                }
            },
            Command::NewGame => {
                actions.push(Action::FinishSearch);
                assert(action_views(actions@) == before.push(ActionView::FinishSearch));
                self.board = start_position();
            },
            Command::Position(board) => {
                self.board = board;
            },
            Command::Go(go) => {
                actions.push(Action::FinishSearch);
                let board = self.board.clone();
                actions.push(Action::StartSearch { strategy: self.strategy, board, go });
                assert(action_views(actions@) == before.push(ActionView::FinishSearch).push(
                    ActionView::StartSearch { strategy: self.strategy, board: self.board, go: go@ },
                ));
            },
            Command::Stop => {
                actions.push(Action::StopSearch);
                assert(action_views(actions@) == before.push(ActionView::StopSearch));
            },
            Command::Quit => {
                actions.push(Action::AbandonSearch);
                assert(action_views(actions@) == before.push(ActionView::AbandonSearch));
                return ControlFlow::Break(());
            },
            Command::Nothing => {},
        }
        ControlFlow::Continue(())
    }

    /// Applies a `setoption`; unknown names and values are dropped.
    pub fn set_option(&mut self, name: &str, value: Option<&str>)
        ensures
            final(self).board == old(self).board,
            final(self).strategy == strategy_after(
                old(self).strategy,
                name@,
                match value {
                    Some(v) => Some(v@),
                    None => None,
                },
            ),
    {
        if !eq_ignore_ascii_case(name, Strategy::OPTION) {
            return;
        }
        if let Some(value) = value {
            if let Some(strategy) = Strategy::from_name(value) {
                self.strategy = strategy;
            }
        }
    }
}

} // verus!
