//! Limits of a single `go`: how long a search may take, how deep it may go, and what it may
//! answer with.

use std::sync::atomic::AtomicBool;
use std::sync::Arc;
use std::time::Instant;

use cozy_chess::{Board, Move};
use vstd::prelude::*;

use crate::chess::{
    is_legal, legal_in, parse_move, side_of, side_to_move, uci_move_of, uci_move_text,
    uci_text_of, Side,
};
use crate::clock::{elapsed_since, is_raised, new_flag, now};
use crate::span::{Span, MAX_SPAN_NANOS};
use crate::uci::parse::{strings, Go, GoView};

verus! {

/// Moves the clock is expected to have to cover.
pub const MOVES_AHEAD: u32 = 30;

/// Longest a single move may take when a clock is given: ten seconds, in nanoseconds.
pub const MAX_BUDGET_NANOS: u128 = 10_000_000_000;

/// Shortest a single move may take when a clock is given: ten milliseconds, in nanoseconds.
pub const MIN_BUDGET_NANOS: u128 = 10_000_000;

/// Clock time held back for the moves that follow: fifty milliseconds, in nanoseconds.
pub const RESERVE_NANOS: u128 = 50_000_000;

/// The share of the clock one move gets: one over the moves to go, counted between one and
/// `MOVES_AHEAD`, or `MOVES_AHEAD` where the GUI names none.
pub open spec fn share_of(moves_to_go: Option<u32>) -> nat {
    let moves = match moves_to_go {
        Some(m) => m,
        None => MOVES_AHEAD,
    };
    if moves < 1 {
        1
    } else if moves > MOVES_AHEAD {
        MOVES_AHEAD as nat
    } else {
        moves as nat
    }
}

/// The time planned for one move before the clock's own limits: a share of the clock and half
/// the increment.
pub open spec fn planned_of(remaining: nat, increment: nat, moves_to_go: Option<u32>) -> nat {
    remaining / share_of(moves_to_go) + increment / 2
}

/// Time to spend on one move, given the clock and the increment of the side to move: the planned
/// time, at most `MAX_BUDGET`, at most the clock less the reserve, and at least `MIN_BUDGET`.
pub open spec fn budget_of(remaining: nat, increment: nat, moves_to_go: Option<u32>) -> nat {
    let planned = planned_of(remaining, increment, moves_to_go);
    let capped = if planned < MAX_BUDGET_NANOS {
        planned
    } else {
        MAX_BUDGET_NANOS as nat
    };
    let left = if remaining >= RESERVE_NANOS {
        (remaining - RESERVE_NANOS) as nat
    } else {
        0
    };
    let within = if capped < left {
        capped
    } else {
        left
    };
    if within > MIN_BUDGET_NANOS {
        within
    } else {
        MIN_BUDGET_NANOS as nat
    }
}

/// The planned time is a span that a `Duration` holds (adding the spans overflows otherwise).
pub open spec fn budget_fits(remaining: nat, increment: nat, moves_to_go: Option<u32>) -> bool {
    planned_of(remaining, increment, moves_to_go) <= MAX_SPAN_NANOS
}

/// The longest a single move may take when a clock is given.
pub fn max_budget() -> (span: Span)
    ensures
        span@ == MAX_BUDGET_NANOS,
{
    Span { nanos: MAX_BUDGET_NANOS }
}

/// The shortest a single move may take when a clock is given.
pub fn min_budget() -> (span: Span)
    ensures
        span@ == MIN_BUDGET_NANOS,
{
    Span { nanos: MIN_BUDGET_NANOS }
}

/// Time to spend on one move, given the clock and the increment of the side to move.
pub fn budget(remaining: Span, increment: Span, moves_to_go: Option<u32>) -> (span: Span)
    requires
        budget_fits(remaining@, increment@, moves_to_go),
    ensures
        span@ == budget_of(remaining@, increment@, moves_to_go),
        MIN_BUDGET_NANOS <= span@ <= MAX_BUDGET_NANOS,
        span@ <= remaining@ - RESERVE_NANOS || span@ == MIN_BUDGET_NANOS,
{
    let moves = match moves_to_go {
        Some(m) => m,
        None => MOVES_AHEAD,
    };
    let share: u32 = if moves < 1 {
        1
    } else if moves > MOVES_AHEAD {
        MOVES_AHEAD
    } else {
        moves
    };
    let planned = remaining.nanos / (share as u128) + increment.nanos / 2;
    let capped = if planned < MAX_BUDGET_NANOS {
        planned
    } else {
        MAX_BUDGET_NANOS
    };
    let left = if remaining.nanos >= RESERVE_NANOS {
        remaining.nanos - RESERVE_NANOS
    } else {
        0
    };
    let within = if capped < left {
        capped
    } else {
        left
    };
    let chosen = if within > MIN_BUDGET_NANOS {
        within
    } else {
        MIN_BUDGET_NANOS
    };
    Span { nanos: chosen }
}

/// The clock and increment of the side to move, as a `go` names them.
pub open spec fn clock_of(go: GoView, side: Side) -> (Option<Span>, Option<Span>) {
    match side {
        Side::White => (go.white_time, go.white_increment),
        Side::Black => (go.black_time, go.black_increment),
    }
}

/// The length of an optional span.
pub open spec fn span_length(span: Option<Span>) -> nat {
    match span {
        Some(s) => s@,
        None => 0,
    }
}

/// How long a search for `side` may take: the move time where the `go` names one, else the
/// budget of the side's clock where it names that, else no limit.
pub open spec fn allowance_of(go: GoView, side: Side) -> Option<nat> {
    let (remaining, increment) = clock_of(go, side);
    match (go.movetime, remaining) {
        (Some(movetime), _) => Some(movetime@),
        (None, Some(remaining)) => Some(
            budget_of(remaining@, span_length(increment), go.moves_to_go),
        ),
        (None, None) => None,
    }
}

/// Without a move time, a side with `remaining` on its clock and `increment` per move plans its
/// clock divided by the moves to go, counted between one and 30 (30 where none are named), plus
/// half its increment; where that plan lies between ten milliseconds and ten seconds and leaves
/// fifty milliseconds on the clock, it is the allowance; otherwise the allowance is the plan cut
/// to ten seconds and to the clock less fifty milliseconds, and at least ten milliseconds. A
/// `go` that names a move time is allowed exactly that.
pub proof fn lemma_clock_allowance_follows_moves_to_go(
    go: GoView,
    side: Side,
    remaining: Span,
    increment: nat,
)
    requires
        side == Side::White ==> go.white_time == Some(remaining) && (go.white_increment matches Some(
            i,
        ) ==> i@ == increment) && (go.white_increment is None ==> increment == 0),
        side == Side::Black ==> go.black_time == Some(remaining) && (go.black_increment matches Some(
            i,
        ) ==> i@ == increment) && (go.black_increment is None ==> increment == 0),
    ensures
        go.movetime matches Some(t) ==> allowance_of(go, side) == Some(t@),
        ({
            let moves: nat = match go.moves_to_go {
                Some(m) => if m == 0 {
                    1
                } else if m > 30 {
                    30
                } else {
                    m as nat
                },
                None => 30,
            };
            let planned = remaining@ / moves + increment / 2;
            &&& go.movetime is None && 10_000_000 <= planned <= 10_000_000_000 && planned
                + 50_000_000 <= remaining@ ==> allowance_of(go, side) == Some(planned)
            &&& go.movetime is None && planned >= 10_000_000_000 && remaining@ >= 10_050_000_000
                ==> allowance_of(go, side) == Some(10_000_000_000nat)
            &&& go.movetime is None && remaining@ <= 60_000_000 ==> allowance_of(go, side) == Some(
                10_000_000nat,
            )
            &&& go.movetime is None ==> (allowance_of(go, side) matches Some(a) && 10_000_000 <= a
                <= 10_000_000_000 && (a == 10_000_000 || a <= planned && a + 50_000_000
                <= remaining@))
        }),
{
}

/// The plies a `go` asks for: its depth where it names one, else twice the moves of its `mate`,
/// at most 255, else none.
pub proof fn lemma_depth_follows_depth_or_mate(go: GoView)
    ensures
        go.depth matches Some(d) ==> depth_of(go) == Some(d),
        go.depth is None && (go.mate matches Some(m) && m <= 127) ==> depth_of(go) == Some(
            (2 * go.mate.unwrap()) as u8,
        ),
        go.depth is None && (go.mate matches Some(m) && m > 127) ==> depth_of(go) == Some(
            255u8,
        ),
        go.depth is None && go.mate is None ==> depth_of(go) is None,
{
}

/// A `go` that names no move time and no clock for the side to move sets no time limit.
pub proof fn lemma_no_clock_no_allowance(go: GoView, side: Side)
    requires
        go.movetime is None,
        side == Side::White ==> go.white_time is None,
        side == Side::Black ==> go.black_time is None,
    ensures
        allowance_of(go, side) is None,
{
}

/// The budget of the side's clock, where it is used, is a span that a `Duration` holds.
pub open spec fn allowance_fits(go: GoView, side: Side) -> bool {
    let (remaining, increment) = clock_of(go, side);
    match (go.movetime, remaining) {
        (None, Some(remaining)) => budget_fits(remaining@, span_length(increment), go.moves_to_go),
        _ => true,
    }
}

/// The plies to search: those the `go` names, else twice the moves of a `mate` (a mate in `n`
/// moves is at most that many moves of each side deep), saturating.
pub open spec fn depth_of(go: GoView) -> Option<u8> {
    match go.depth {
        Some(depth) => Some(depth),
        None => match go.mate {
            Some(moves) => Some(
                if moves * 2 > u8::MAX {
                    u8::MAX
                } else {
                    (moves * 2) as u8
                },
            ),
            None => None,
        },
    }
}

/// The moves of `wanted`, in UCI notation, that can be played in `board`, in order; the rest are
/// dropped.
pub open spec fn playable_moves(board: Board, wanted: Seq<Seq<char>>) -> Seq<Move>
    decreases wanted.len(),
{
    if wanted.len() == 0 {
        seq![]
    } else {
        let kept = playable_moves(board, wanted.drop_last());
        match uci_move_of(board, wanted.last()) {
            Some(mv) => if legal_in(board, mv) {
                kept.push(mv)
            } else {
                kept
            },
            None => kept,
        }
    }
}

/// The view of an optional span.
pub open spec fn optional_length(span: Option<Span>) -> Option<nat> {
    match span {
        Some(s) => Some(s@),
        None => None,
    }
}

/// Whether the budget that `Limits::new` would compute for `go` in `board` is a span that a
/// `Duration` holds, so that the limits can be set.
pub fn allowance_fits_in(go: &Go, board: &Board) -> (fits: bool)
    ensures
        fits == allowance_fits(go@, side_of(*board)),
{
    let (remaining, increment) = match side_to_move(board) {
        Side::White => (go.white_time, go.white_increment),
        Side::Black => (go.black_time, go.black_increment),
    };
    match (go.movetime, remaining) {
        (None, Some(remaining)) => {
            let increment = match increment {
                Some(increment) => increment.nanos,
                None => 0,
            };
            let share: u32 = match go.moves_to_go {
                Some(m) => if m < 1 {
                    1
                } else if m > MOVES_AHEAD {
                    MOVES_AHEAD
                } else {
                    m
                },
                None => MOVES_AHEAD,
            };
            let part = remaining.nanos / (share as u128);
            let half = increment / 2;
            half <= MAX_SPAN_NANOS && part <= MAX_SPAN_NANOS - half
        },
        _ => true,
    }
}

/// Whether a search must give up: it has been asked to stop, or the time it has taken has
/// reached its allowance.
pub open spec fn expiry_of(raised: bool, elapsed: nat, allowance: Option<Span>) -> bool {
    raised || (allowance matches Some(a) && elapsed >= a@)
}

/// Whether a search must give up, given whether its stop flag is `raised` and the time
/// `elapsed` since its limits were set.
pub fn expiry(raised: bool, elapsed: Span, allowance: Option<Span>) -> (expired: bool)
    ensures
        expired == expiry_of(raised, elapsed@, allowance),
{
    raised || match allowance {
        Some(allowance) => elapsed.nanos >= allowance.nanos,
        None => false,
    }
}

/// Whether `nodes` visited positions reach the limit `limit`, if there is one.
pub open spec fn nodes_spent(limit: Option<u64>, nodes: u64) -> bool {
    limit matches Some(l) && nodes >= l
}

/// When a search must give up, how deep it may go, and what it may answer with.
pub struct Limits {
    /// Raised to ask the search to stop.
    pub stop: Arc<AtomicBool>,
    /// When the limits were set.
    pub started: Instant,
    /// How long the search may take from when the limits were set; `None` sets no time limit.
    pub allowance: Option<Span>,
    /// Plies to search; a strategy may cap this further.
    pub depth: Option<u8>,
    /// Positions to visit at most.
    pub nodes: Option<u64>,
    /// The moves the answer must come from; empty allows every legal move.
    pub search_moves: Vec<Move>,
    /// Whether the move must be withheld until `stop`.
    pub infinite: bool,
}

impl Limits {
    /// Turns the limits of a `go` into a time allowance, starting now, and a move list for a
    /// search in `board`.
    pub fn new(go: &Go, board: &Board) -> (limits: Limits)
        requires
            allowance_fits(go@, side_of(*board)),
        ensures
            optional_length(limits.allowance) == allowance_of(go@, side_of(*board)),
            limits.depth == depth_of(go@),
            limits.nodes == go.nodes,
            limits.search_moves@ == playable_moves(*board, strings(go.search_moves@)),
            limits.infinite == (go.infinite || (limits.allowance is None && limits.depth is None
                && go.nodes is None)),
            forall|mv: Move| #[trigger] limits.search_moves@.contains(mv) ==> legal_in(*board, mv),
    {
        let side = side_to_move(board);
        let (remaining, increment) = match side {
            Side::White => (go.white_time, go.white_increment),
            Side::Black => (go.black_time, go.black_increment),
        };
        let allowance = match (go.movetime, remaining) {
            (Some(movetime), _) => Some(movetime),
            (None, Some(remaining)) => {
                let increment = match increment {
                    Some(increment) => increment,
                    None => Span::zero(),
                };
                Some(budget(remaining, increment, go.moves_to_go))
            },
            (None, None) => None,
        };
        let depth = match go.depth {
            Some(depth) => Some(depth),
            None => match go.mate {
                Some(moves) => Some(
                    if moves > 127 {
                        u8::MAX
                    } else {
                        moves * 2
                    },
                ),
                None => None,
            },
        };
        let search_moves = playable(board, &go.search_moves);
        // A `go` that names no bound at all also runs until stopped.
        let infinite = go.infinite || (allowance.is_none() && depth.is_none()
            && go.nodes.is_none());
        Limits {
            stop: new_flag(),
            started: now(),
            allowance,
            depth,
            nodes: go.nodes,
            search_moves,
            infinite,
        }
    }

    /// Whether every move these limits name is legal in `board`, as a search of `board` needs.
    pub fn moves_legal_in(&self, board: &Board) -> (legal: bool)
        ensures
            legal == forall|mv: Move| #[trigger] self.search_moves@.contains(mv) ==> legal_in(
                *board,
                mv,
            ),
    {
        let mut i: usize = 0;
        while i < self.search_moves.len()
            invariant
                i <= self.search_moves@.len(),
                forall|j: int| 0 <= j < i ==> legal_in(*board, #[trigger] self.search_moves@[j]),
            decreases self.search_moves@.len() - i,
        {
            if !is_legal(board, self.search_moves[i]) {
                assert(self.search_moves@.contains(self.search_moves@[i as int]));
                return false;
            }
            i = i + 1;
        }
        true
    }

    /// Whether the search must yield the best move it has: it has been asked to stop, or its
    /// time allowance has run out. Both depend on when this is asked; a zero allowance has
    /// always run out.
    pub fn expired(&self) -> (expired: bool)
        ensures
            self.allowance matches Some(a) && a@ == 0 ==> expired,
    {
        expiry(is_raised(&self.stop), elapsed_since(&self.started), self.allowance)
    }

    /// Whether a search that has settled on its move must still hold it back: it runs until
    /// stopped, and has neither been stopped nor run out of time. A search with a bound, or with
    /// a zero allowance, never holds it back.
    pub fn withholds(&self) -> (withholds: bool)
        ensures
            withholds ==> self.infinite,
            self.allowance matches Some(a) && a@ == 0 ==> !withholds,
    {
        self.infinite && !self.expired()
    }

    /// Whether the search, having visited `nodes` positions, must yield the best move it has:
    /// it has visited the positions it may, or it has expired.
    pub fn spent(&self, nodes: u64) -> (spent: bool)
        ensures
            self.nodes matches Some(limit) && nodes >= limit ==> spent,
            self.allowance matches Some(a) && a@ == 0 ==> spent,
    {
        self.spent_given(nodes, self.expired())
    }

    /// Whether the search, having visited `nodes` positions, must yield the best move it has,
    /// given whether it has `expired`.
    pub fn spent_given(&self, nodes: u64, expired: bool) -> (spent: bool)
        ensures
            spent == (nodes_spent(self.nodes, nodes) || expired),
    {
        let out_of_nodes = match self.nodes {
            Some(limit) => nodes >= limit,
            None => false,
        };
        out_of_nodes || expired
    }
}

/// The moves of `wanted`, in UCI notation, that can be played in `board`; the rest are dropped.
pub fn playable(board: &Board, wanted: &Vec<String>) -> (moves: Vec<Move>)
    ensures
        moves@ == playable_moves(*board, strings(wanted@)),
        forall|mv: Move| #[trigger] moves@.contains(mv) ==> legal_in(*board, mv),
{
    let mut moves: Vec<Move> = Vec::new();
    let n = wanted.len();
    let mut i: usize = 0;
    while i < n
        invariant
            n == wanted@.len(),
            i <= n,
            moves@ == playable_moves(*board, strings(wanted@).take(i as int)),
            forall|mv: Move| #[trigger] moves@.contains(mv) ==> legal_in(*board, mv),
        decreases n - i,
    {
        assert(strings(wanted@).take(i + 1).drop_last() == strings(wanted@).take(i as int));
        match parse_move(board, wanted[i].as_str()) {
            Some(played) => {
                if is_legal(board, played) {
                    let ghost before = moves@;
                    moves.push(played);
                    assert forall|mv: Move| #[trigger] moves@.contains(mv) implies legal_in(
                        *board,
                        mv,
                    ) by {
                        if mv != played {
                            let k = choose|k: int| 0 <= k < moves@.len() && moves@[k] == mv;
                            assert(before[k] == mv);
                            assert(before.contains(mv));
                        }
                    }
                }
            },
            None => {},
        }
        i = i + 1;
    }
    assert(strings(wanted@).take(n as int) == strings(wanted@));
    moves
}

/// The `bestmove` line reporting `played` in `board`, or the null move when there is none.
pub open spec fn best_move_text(board: Board, played: Option<Move>) -> Seq<char> {
    match played {
        Some(mv) => "bestmove "@ + uci_text_of(board, mv),
        None => "bestmove 0000"@,
    }
}

/// The `bestmove` line reporting `played` in `board`, or the null move when there is none.
pub fn best_move(board: &Board, played: Option<Move>) -> (line: String)
    ensures
        line@ == best_move_text(*board, played),
{
    match played {
        Some(played) => {
            let mut line = String::from_str("bestmove ");
            line.append(uci_move_text(board, played).as_str());
            line
        },
        None => String::from_str("bestmove 0000"),
    }
}

} // verus!
