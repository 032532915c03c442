//! The ways Anglerfry picks a move, and the UCI option that selects one.

pub mod random;
pub mod two_ply;

use cozy_chess::{Board, Move};
use vstd::prelude::*;

use crate::chess::{
    legal_in, legal_moves, legal_moves_of, status_of, uci_move_text, uci_text_of, Status,
};
use crate::search::Limits;
use crate::span::{Span, NANOS_PER_MILLI};
use crate::text::{
    decimal, eq_ignore_ascii_case, push_decimal, push_signed, same_ignoring_ascii_case,
    signed_decimal,
};

verus! {

/// A way of picking a move.
#[derive(Clone, Copy, Debug, Eq, PartialEq, Structural)]
pub enum Strategy {
    /// Uniformly random among the legal moves.
    Random,
    /// Shallow negamax over material.
    TwoPly,
}

/// Every strategy, in the order the option offers them.
pub open spec fn all_strategies() -> Seq<Strategy> {
    seq![Strategy::Random, Strategy::TwoPly]
}

/// The option value naming a strategy.
pub open spec fn name_of(strategy: Strategy) -> Seq<char> {
    match strategy {
        Strategy::Random => "random"@,
        Strategy::TwoPly => "two-ply"@,
    }
}

/// The first strategy, in the order of `all_strategies`, whose name `name` is, ASCII case
/// aside.
pub open spec fn strategy_named(name: Seq<char>) -> Option<Strategy> {
    if same_ignoring_ascii_case(name_of(Strategy::Random), name) {
        Some(Strategy::Random)
    } else if same_ignoring_ascii_case(name_of(Strategy::TwoPly), name) {
        Some(Strategy::TwoPly)
    } else {
        None
    }
}

/// The `option` line offering the choice of strategy: its name, the default, and one `var` for
/// each strategy of `all_strategies`, in order.
pub open spec fn option_text() -> Seq<char> {
    "option name "@ + Strategy::OPTION@ + " type combo default "@ + name_of(Strategy::Random) + " var "@
        + name_of(Strategy::Random) + " var "@ + name_of(Strategy::TwoPly)
}

impl Default for Strategy {
    /// Picking at random is the default.
    fn default() -> (strategy: Strategy)
        ensures
            strategy == Strategy::Random,
    {
        Strategy::Random
    }
}

impl Strategy {
    /// The name of the UCI option selecting a strategy.
    pub const OPTION: &'static str = "Strategy";

    /// Every strategy, in the order the option offers them.
    pub fn all() -> (all: Vec<Strategy>)
        ensures
            all@ == all_strategies(),
    {
        let all = vec![Strategy::Random, Strategy::TwoPly];
        assert(all@ == all_strategies());
        all
    }

    /// The option value naming this strategy.
    pub fn name(self) -> (name: &'static str)
        ensures
            name@ == name_of(self),
    {
        match self {
            Strategy::Random => "random",
            Strategy::TwoPly => "two-ply",
        }
    }

    /// The strategy that `name` selects, if any.
    pub fn from_name(name: &str) -> (strategy: Option<Strategy>)
        ensures
            strategy == strategy_named(name@),
    {
        if eq_ignore_ascii_case(Strategy::Random.name(), name) {
            Some(Strategy::Random)
        } else if eq_ignore_ascii_case(Strategy::TwoPly.name(), name) {
            Some(Strategy::TwoPly)
        } else {
            None
        }
    }

    /// The `option` line offering the choice of strategy.
    pub fn option() -> (line: String)
        ensures
            line@ == option_text(),
    {
        let mut line = String::from_str("option name ");
        line.append(Strategy::OPTION);
        line.append(" type combo default ");
        line.append(Strategy::default().name());
        let all = Strategy::all();
        let mut i: usize = 0;
        while i < all.len()
            invariant
                all@ == all_strategies(),
                i <= all@.len(),
                line@ == "option name "@ + Strategy::OPTION@ + " type combo default "@ + name_of(
                    Strategy::Random,
                ) + names_offered(i as int),
            decreases all@.len() - i,
        {
            line.append(" var ");
            line.append(all[i].name());
            i = i + 1;
            assert(line@ =~= "option name "@ + Strategy::OPTION@ + " type combo default "@
                + name_of(Strategy::Random) + names_offered(i as int));
        }
        assert(names_offered(1) =~= " var "@ + name_of(Strategy::Random));
        assert(names_offered(2) =~= " var "@ + name_of(Strategy::Random) + " var "@ + name_of(
            Strategy::TwoPly,
        ));
        line
    }
}

impl Strategy {
    /// The move to play in `board` within `limits`, or `None` when `limits` leave no move there
    /// (the game is over, or no named move is playable). Searching plays the moves, so a search
    /// with `TwoPly` needs them legal; it asks `spent`, with the positions visited so far,
    /// whether the limits are spent, and stops searching once they are: where `spent` answers yes
    /// from `t` positions on, no report of `TwoPly` counts more than `t` positions, and where it
    /// always does, `TwoPly` falls back on the first move. Each report is handed to `report` as
    /// soon as it is made, and kept in `infos`. Adds to `infos` at least one report whenever it returns a move, the
    /// last one reporting that move.
    pub fn pick<R: Fn(&Info), S: Fn(u64) -> bool>(
        self,
        board: &Board,
        limits: &Limits,
        infos: &mut Vec<Info>,
        report: &R,
        spent: &S,
    ) -> (played: Option<Move>)
        requires
            self == Strategy::TwoPly ==> moves_legal(*board, *limits),
            forall|info: Info| report.requires((&info,)),
            forall|n: u64| spent.requires((n,)),
        ensures
            played is None <==> root_moves_of(*board, *limits).len() == 0,
            played is None ==> final(infos)@ == old(infos)@,
            limits.search_moves@.len() == 0 && status_of(*board) == Status::Ongoing
                ==> played is Some,
            played matches Some(m) ==> {
                &&& root_moves_of(*board, *limits).contains(m)
                &&& moves_legal(*board, *limits) ==> legal_in(*board, m)
                &&& final(infos)@.len() > old(infos)@.len()
                &&& final(infos)@.last().best == m
                &&& self == Strategy::Random ==> final(infos)@ == old(infos)@.push(
                    Info { depth: 1, score: 0, nodes: 1, elapsed: Span { nanos: 0 }, best: m },
                )
                &&& self == Strategy::TwoPly ==> two_ply::answers_search(
                    *board,
                    *limits,
                    *spent,
                    m,
                    final(infos)@.skip(old(infos)@.len() as int),
                )
            },
            self == Strategy::TwoPly ==> forall|t: nat, j: int|
                #![trigger two_ply::spent_from(*spent, t), final(infos)@[j]]
                two_ply::spent_from(*spent, t) && old(infos)@.len() <= j < final(infos)@.len()
                    ==> final(infos)@[j].nodes <= t,
            self == Strategy::TwoPly && two_ply::spent_from(*spent, 0) ==> (played matches Some(m)
                ==> m == root_moves_of(*board, *limits)[0] && two_ply::depths_of(
                final(infos)@.skip(old(infos)@.len() as int),
            ) == seq![0u8]),
    {
        match self {
            Strategy::Random => random::pick(board, limits, infos, report),
            Strategy::TwoPly => {
                let played = two_ply::pick(board, limits, infos, report, spent);
                proof {
                    if let Some(m) = played {
                        let n = infos@.len() - 1;
                        assert(two_ply::reports_search(
                            *board,
                            root_moves_of(*board, *limits),
                            infos@[n],
                        ));
                    }
                }
                played
            },
        }
    }
}

/// The `var` entries of the option for the first `k` strategies.
pub open spec fn names_offered(k: int) -> Seq<char>
    decreases k,
{
    if k <= 0 {
        seq![]
    } else {
        names_offered(k - 1) + " var "@ + name_of(all_strategies()[k - 1])
    }
}

/// Each strategy's name selects it again.
pub proof fn lemma_names_round_trip(strategy: Strategy)
    ensures
        strategy_named(name_of(strategy)) == Some(strategy),
{
    reveal_strlit("random");
    reveal_strlit("two-ply");
    if strategy == Strategy::TwoPly {
        assert(!same_ignoring_ascii_case(name_of(Strategy::Random), name_of(Strategy::TwoPly)));
    }
}

// ---------------------------------------------------------------------------------------------
// What a search may answer with, and what it reports
// ---------------------------------------------------------------------------------------------

/// The moves in `board` a search may answer with: those `limits` name, else every legal one.
pub open spec fn root_moves_of(board: Board, limits: Limits) -> Seq<Move> {
    if limits.search_moves@.len() > 0 {
        limits.search_moves@
    } else {
        legal_moves_of(board)
    }
}

/// Every move a search may answer with is legal.
pub open spec fn moves_legal(board: Board, limits: Limits) -> bool {
    forall|mv: Move| #[trigger] limits.search_moves@.contains(mv) ==> legal_in(board, mv)
}

/// A copy of a list of moves.
fn copy_moves(moves: &Vec<Move>) -> (copy: Vec<Move>)
    ensures
        copy@ == moves@,
{
    let mut copy: Vec<Move> = Vec::new();
    let mut i: usize = 0;
    while i < moves.len()
        invariant
            i <= moves@.len(),
            copy@ == moves@.take(i as int),
        decreases moves@.len() - i,
    {
        copy.push(moves[i]);
        assert(copy@ == moves@.take(i + 1));
        i = i + 1;
    }
    assert(moves@.take(moves@.len() as int) == moves@);
    copy
}

/// The moves in `board` a search may answer with: those `limits` name, else every legal one.
pub fn root_moves(board: &Board, limits: &Limits) -> (moves: Vec<Move>)
    ensures
        moves@ == root_moves_of(*board, *limits),
        moves_legal(*board, *limits) ==> forall|mv: Move| #[trigger] moves@.contains(mv)
            ==> legal_in(*board, mv),
        limits.search_moves@.len() == 0 && status_of(*board) == Status::Ongoing ==> moves@.len()
            > 0,
{
    if limits.search_moves.len() > 0 {
        return copy_moves(&limits.search_moves);
    }
    legal_moves(board)
}

/// What a search settled on at some depth: the move, its score in centipawns, the positions
/// visited and the time taken so far.
#[derive(Clone, Copy, Debug)]
pub struct Info {
    pub depth: u8,
    pub score: i32,
    pub nodes: u64,
    pub elapsed: Span,
    pub best: Move,
}

/// The `info` line of a search that settled on `info.best` in `board`.
pub open spec fn info_text(board: Board, info: Info) -> Seq<char> {
    "info depth "@ + decimal(info.depth as nat) + " time "@ + decimal(
        info.elapsed@ / NANOS_PER_MILLI as nat,
    ) + " nodes "@ + decimal(info.nodes as nat) + " score cp "@ + signed_decimal(info.score as int)
        + " pv "@ + uci_text_of(board, info.best)
}

/// The `info` line of a search that settled on `info.best` in `board`, scored in centipawns.
pub fn info_line(board: &Board, info: &Info) -> (line: String)
    ensures
        line@ == info_text(*board, *info),
{
    let mut line = String::from_str("info depth ");
    push_decimal(&mut line, info.depth as u128);
    line.append(" time ");
    push_decimal(&mut line, info.elapsed.as_millis());
    line.append(" nodes ");
    push_decimal(&mut line, info.nodes as u128);
    line.append(" score cp ");
    push_signed(&mut line, info.score as i64);
    line.append(" pv ");
    line.append(uci_move_text(board, info.best).as_str());
    line
}

} // verus!
