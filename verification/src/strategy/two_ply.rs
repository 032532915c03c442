//! The shallow negamax strategy.

use cozy_chess::{Board, Move};
use vstd::arithmetic::power2::{lemma2_to64, lemma_pow2_unfold, pow2};
use vstd::prelude::*;

use super::{moves_legal, root_moves, root_moves_of, Info};
use crate::chess::{
    after_move, colors_mask, game_status, legal_in, legal_moves, legal_moves_of, pieces_mask,
    piece_squares, play_unchecked, side_of, side_squares, side_to_move, status_of, PieceKind,
    Side, Status,
};
use crate::clock::{elapsed_since, now};
use crate::search::Limits;

verus! {

/// The deepest this strategy searches, whatever depth is asked of it.
pub const MAX_DEPTH: u8 = 4;

/// A score below every reachable one.
pub const WORST: i32 = -1_000_000;

/// Being checkmated, before the bonus that prefers being mated later.
pub const MATED: i32 = -100_000;

/// The centipawn value of a piece.
pub open spec fn piece_value(piece: PieceKind) -> int {
    match piece {
        PieceKind::Pawn => 100,
        PieceKind::Knight => 320,
        PieceKind::Bishop => 330,
        PieceKind::Rook => 500,
        PieceKind::Queen => 900,
        PieceKind::King => 0,
    }
}

/// The centipawn value of a piece.
pub fn value(piece: PieceKind) -> (v: i32)
    ensures
        v == piece_value(piece),
{
    match piece {
        PieceKind::Pawn => 100,
        PieceKind::Knight => 320,
        PieceKind::Bishop => 330,
        PieceKind::Rook => 500,
        PieceKind::Queen => 900,
        PieceKind::King => 0,
    }
}

/// The number of bits set in `x`.
pub open spec fn bit_count(x: nat) -> nat
    decreases x,
{
    if x == 0 {
        0
    } else {
        x % 2 + bit_count(x / 2)
    }
}

/// A number below two to the power `k` has at most `k` bits set.
proof fn lemma_bit_count_bound(x: nat, k: nat)
    requires
        x < pow2(k),
    ensures
        bit_count(x) <= k,
    decreases k,
{
    if k > 0 && x > 0 {
        lemma_pow2_unfold(k);
        lemma_bit_count_bound(x / 2, (k - 1) as nat);
    } else if k == 0 {
        lemma2_to64();
    }
}

/// The number of bits set in `x`, as `u64::count_ones` counts them.
fn count_bits(x: u64) -> (n: u32)
    ensures
        n == bit_count(x as nat),
        n <= 64,
{
    proof {
        lemma2_to64();
        lemma_bit_count_bound(x as nat, 64);
    }
    let mut rest = x;
    let mut n: u32 = 0;
    while rest != 0
        invariant
            n + bit_count(rest as nat) == bit_count(x as nat),
            bit_count(x as nat) <= 64,
        decreases rest,
    {
        n = n + (rest % 2) as u32;
        rest = rest / 2;
    }
    n
}

/// Every kind of piece, in the order `Piece::ALL` lists them.
pub open spec fn all_piece_kinds() -> Seq<PieceKind> {
    seq![
        PieceKind::Pawn,
        PieceKind::Knight,
        PieceKind::Bishop,
        PieceKind::Rook,
        PieceKind::Queen,
        PieceKind::King,
    ]
}

/// The pieces of kind `piece` that `side` has in `board`.
pub open spec fn count_of(board: Board, piece: PieceKind, side: Side) -> int {
    bit_count((piece_squares(board, piece) & side_squares(board, side)) as nat) as int
}

/// White's lead in pieces of kind `piece`, in centipawns.
pub open spec fn lead_in(board: Board, piece: PieceKind) -> int {
    piece_value(piece) * (count_of(board, piece, Side::White) - count_of(board, piece, Side::Black))
}

/// White's lead over the first `k` kinds of piece, in centipawns.
pub open spec fn lead_upto(board: Board, k: int) -> int
    decreases k,
{
    if k <= 0 {
        0
    } else {
        lead_upto(board, k - 1) + lead_in(board, all_piece_kinds()[k - 1])
    }
}

/// The material balance of `board` in centipawns, from the side to move's point of view.
pub open spec fn material(board: Board) -> int {
    match side_of(board) {
        Side::White => lead_upto(board, 6),
        Side::Black => -lead_upto(board, 6),
    }
}

/// Material counts every kind of piece at its value: the pawns, knights, bishops, rooks, queens
/// and kings White has more than Black, at 100, 320, 330, 500, 900 and 0 centipawns each, for
/// White to move, and the opposite for Black to move.
pub proof fn lemma_material_counts_every_kind(board: Board)
    ensures
        ({
            let n = |piece: PieceKind, side: Side|
                bit_count((piece_squares(board, piece) & side_squares(board, side)) as nat) as int;
            let lead = 100 * (n(PieceKind::Pawn, Side::White) - n(PieceKind::Pawn, Side::Black))
                + 320 * (n(PieceKind::Knight, Side::White) - n(PieceKind::Knight, Side::Black))
                + 330 * (n(PieceKind::Bishop, Side::White) - n(PieceKind::Bishop, Side::Black))
                + 500 * (n(PieceKind::Rook, Side::White) - n(PieceKind::Rook, Side::Black))
                + 900 * (n(PieceKind::Queen, Side::White) - n(PieceKind::Queen, Side::Black))
                + 0 * (n(PieceKind::King, Side::White) - n(PieceKind::King, Side::Black));
            material(board) == if side_of(board) == Side::White {
                lead
            } else {
                -lead
            }
        }),
{
    reveal_with_fuel(lead_upto, 7);
}

/// The material balance of `board` in centipawns, from the side to move's point of view.
pub fn evaluate(board: &Board) -> (score: i32)
    ensures
        score == material(*board),
        -345_600 <= score <= 345_600,
{
    let kinds = vec![
        PieceKind::Pawn,
        PieceKind::Knight,
        PieceKind::Bishop,
        PieceKind::Rook,
        PieceKind::Queen,
        PieceKind::King,
    ];
    assert(kinds@ == all_piece_kinds());
    let white = colors_mask(board, Side::White);
    let black = colors_mask(board, Side::Black);
    let mut balance: i32 = 0;
    let mut k: usize = 0;
    while k < kinds.len()
        invariant
            kinds@ == all_piece_kinds(),
            k <= 6,
            white == side_squares(*board, Side::White),
            black == side_squares(*board, Side::Black),
            balance == lead_upto(*board, k as int),
            -57_600 * k <= balance <= 57_600 * k,
        decreases 6 - k,
    {
        let piece = kinds[k];
        let squares = pieces_mask(board, piece);
        let whites = count_bits(squares & white) as i32;
        let blacks = count_bits(squares & black) as i32;
        let v = value(piece);
        assert(0 <= v <= 900);
        assert(-57_600 <= v * (whites - blacks) <= 57_600) by (nonlinear_arith)
            requires
                0 <= v <= 900,
                0 <= whites <= 64,
                0 <= blacks <= 64,
        ;
        balance = balance + v * (whites - blacks);
        k = k + 1;
    }
    match side_to_move(board) {
        Side::White => balance,
        Side::Black => -balance,
    }
}

/// The score of `board` for the side to move, searched `depth` plies: a checkmate scores
/// `MATED` plus the plies left (being mated later is better), a draw scores nothing, a position
/// at the end of the search scores its material, and any other scores the best of the negated
/// scores of the positions its legal moves lead to.
pub open spec fn negamax_value(board: Board, depth: nat) -> int
    decreases depth, 0nat,
{
    match status_of(board) {
        Status::Won => MATED + depth,
        Status::Drawn => 0,
        Status::Ongoing => if depth == 0 {
            material(board)
        } else {
            best_reply(board, legal_moves_of(board), (depth - 1) as nat)
        },
    }
}

/// The best of the negated scores, searched `depth` plies, of the positions that `moves` lead
/// to from `board`, and `WORST` where there are none.
pub open spec fn best_reply(board: Board, moves: Seq<Move>, depth: nat) -> int
    decreases depth, moves.len(),
{
    if moves.len() == 0 {
        WORST as int
    } else {
        let earlier = best_reply(board, moves.drop_last(), depth);
        let last = -negamax_value(after_move(board, moves.last()), depth);
        if last > earlier {
            last
        } else {
            earlier
        }
    }
}

/// The positions a complete search of `board` over `depth` plies visits: `board` itself and,
/// where the game goes on and plies are left, those of the searches of the positions its legal
/// moves lead to.
pub open spec fn positions_searched(board: Board, depth: nat) -> nat
    decreases depth, 0nat,
{
    1 + match status_of(board) {
        Status::Ongoing => if depth == 0 {
            0
        } else {
            positions_below(board, legal_moves_of(board), (depth - 1) as nat)
        },
        _ => 0,
    }
}

/// The positions the complete searches, over `depth` plies, of the positions that `moves` lead to
/// from `board` visit together.
pub open spec fn positions_below(board: Board, moves: Seq<Move>, depth: nat) -> nat
    decreases depth, moves.len(),
{
    if moves.len() == 0 {
        0
    } else {
        positions_below(board, moves.drop_last(), depth) + positions_searched(
            after_move(board, moves.last()),
            depth,
        )
    }
}

/// The searches of the first moves of a list visit no more positions than those of the whole
/// list.
proof fn lemma_positions_below_prefix(board: Board, moves: Seq<Move>, i: int, depth: nat)
    requires
        0 <= i <= moves.len(),
    ensures
        positions_below(board, moves.take(i), depth) <= positions_below(board, moves, depth),
    decreases moves.len() - i,
{
    if i < moves.len() {
        lemma_positions_below_prefix(board, moves, i + 1, depth);
        assert(moves.take(i + 1).drop_last() == moves.take(i));
    } else {
        assert(moves.take(i) == moves);
    }
}

/// Whether the limit test `spent` never answers that the limits are spent.
pub open spec fn never_spent<S: Fn(u64) -> bool>(spent: S) -> bool {
    forall|n: u64, r: bool| #[trigger] spent.ensures((n,), r) ==> !r
}

/// Whether the limit test `spent` answers that the limits are spent for every count of positions
/// from `t` on.
pub open spec fn spent_from<S: Fn(u64) -> bool>(spent: S, t: nat) -> bool {
    forall|n: u64, r: bool| #[trigger] spent.ensures((n,), r) && n >= t ==> r
}

/// The score of `board` for the side to move, over `depth` plies, adding to `nodes` the positions
/// visited, and whether the search was complete. Asks `spent`, with the positions visited so far,
/// before each move it searches, and returns early, with a meaningless score and `false`, once
/// it answers that the limits are spent (or the count of positions is exhausted): where `spent`
/// answers yes from `t` positions on, the count ends no higher than `t`, or than one past the
/// count it started from; a search entered with the count at `t` or beyond visits its own
/// position only, and is cut short where plies and moves were left to search.
fn negamax<S: Fn(u64) -> bool>(board: &Board, depth: u8, spent: &S, nodes: &mut u64) -> (result: (
    i32,
    bool,
))
    requires
        forall|n: u64| spent.requires((n,)),
    ensures
        result.1 ==> result.0 == negamax_value(*board, depth as nat),
        WORST <= result.0 <= -WORST,
        *final(nodes) >= *old(nodes),
        *old(nodes) < u64::MAX ==> *final(nodes) > *old(nodes),
        result.1 ==> *final(nodes) == *old(nodes) + positions_searched(*board, depth as nat),
        *final(nodes) <= *old(nodes) + positions_searched(*board, depth as nat),
        *old(nodes) < u64::MAX && (status_of(*board) != Status::Ongoing || depth == 0)
            ==> result.1,
        *old(nodes) == u64::MAX ==> !result.1 && *final(nodes) == *old(nodes),
        never_spent(*spent) && *old(nodes) + positions_searched(*board, depth as nat) <= u64::MAX
            ==> result.1,
        forall|t: nat|
            spent_from(*spent, t) ==> *final(nodes) <= *old(nodes) + 1 || *final(nodes) <= t,
        spent_from(*spent, (*old(nodes) + 1) as nat) && *old(nodes) < u64::MAX && status_of(*board)
            == Status::Ongoing && depth > 0 ==> !result.1,
    decreases depth,
{
    if *nodes == u64::MAX {
        return (0, false);
    }
    *nodes = *nodes + 1;
    match game_status(board) {
        Status::Won => {
            return (MATED + depth as i32, true);
        },
        Status::Drawn => {
            return (0, true);
        },
        Status::Ongoing => {},
    }
    if depth == 0 {
        return (evaluate(board), true);
    }
    let moves = legal_moves(board);
    let mut best = WORST;
    let mut complete = true;
    let mut i: usize = 0;
    while i < moves.len()
        invariant
            moves@ == legal_moves_of(*board),
            forall|mv: Move| moves@.contains(mv) <==> legal_in(*board, mv),
            i <= moves@.len(),
            moves@.len() > 0,
            i == 0 ==> *nodes == *old(nodes) + 1,
            spent_from(*spent, (*old(nodes) + 1) as nat) ==> i == 0,
            forall|t: nat| spent_from(*spent, t) ==> *nodes <= *old(nodes) + 1 || *nodes <= t,
            0 < depth,
            status_of(*board) == Status::Ongoing,
            WORST <= best <= -WORST,
            complete ==> best == best_reply(*board, moves@.take(i as int), (depth - 1) as nat),
            forall|n: u64| spent.requires((n,)),
            never_spent(*spent) && *old(nodes) + 1 + positions_below(
                *board,
                moves@,
                (depth - 1) as nat,
            ) <= u64::MAX ==> complete,
            *nodes >= *old(nodes) + 1,
            complete ==> *nodes == *old(nodes) + 1 + positions_below(
                *board,
                moves@.take(i as int),
                (depth - 1) as nat,
            ),
            *nodes <= *old(nodes) + 1 + positions_below(
                *board,
                moves@.take(i as int),
                (depth - 1) as nat,
            ),
        ensures
            WORST <= best <= -WORST,
            spent_from(*spent, (*old(nodes) + 1) as nat) ==> !complete,
            forall|t: nat| spent_from(*spent, t) ==> *nodes <= *old(nodes) + 1 || *nodes <= t,
            complete ==> i == moves@.len() && best == best_reply(
                *board,
                moves@.take(i as int),
                (depth - 1) as nat,
            ),
            never_spent(*spent) && *old(nodes) + 1 + positions_below(
                *board,
                moves@,
                (depth - 1) as nat,
            ) <= u64::MAX ==> complete,
            *nodes >= *old(nodes) + 1,
            complete ==> *nodes == *old(nodes) + 1 + positions_below(
                *board,
                moves@.take(i as int),
                (depth - 1) as nat,
            ),
            *nodes <= *old(nodes) + 1 + positions_below(
                *board,
                moves@.take(i as int),
                (depth - 1) as nat,
            ),
        decreases moves@.len() - i,
    {
        let visited = *nodes;
        let stop = spent(visited);
        if stop {
            complete = false;
            break;
        }
        assert(forall|t: nat| spent_from(*spent, t) ==> visited < t) by {
            assert(spent.ensures((visited,), stop));
        }
        let played = moves[i];
        assert(moves@.contains(played));
        let mut child = board.clone();
        play_unchecked(&mut child, played);
        proof {
            lemma_positions_below_prefix(*board, moves@, i + 1, (depth - 1) as nat);
            assert(moves@.take(i + 1).last() == played);
        }
        let (score, child_complete) = negamax(&child, depth - 1, spent, nodes);
        if !child_complete {
            complete = false;
        }
        assert(moves@.take(i + 1).drop_last() == moves@.take(i as int));
        if -score > best {
            best = -score;
        }
        i = i + 1;
    }
    proof {
        lemma_positions_below_prefix(*board, moves@, i as int, (depth - 1) as nat);
    }
    if complete {
        assert(moves@.take(moves@.len() as int) == moves@);
    }
    (best, complete)
}

/// The best move among `moves` in `board`, searched `depth` plies, with its score: the first
/// move whose negated score beats every score before it and `WORST`, if any.
pub open spec fn root_choice(board: Board, moves: Seq<Move>, depth: nat) -> (Option<Move>, int)
    decreases moves.len(),
{
    if moves.len() == 0 {
        (None, WORST as int)
    } else {
        let (candidate, best) = root_choice(board, moves.drop_last(), depth);
        let score = -negamax_value(after_move(board, moves.last()), (depth - 1) as nat);
        if score > best {
            (Some(moves.last()), score)
        } else {
            (candidate, best)
        }
    }
}

/// The move iterative deepening holds once the searches to depths 1 to `k` have completed:
/// the first move before any, and each completed depth's choice where it has one.
pub open spec fn deepened(board: Board, moves: Seq<Move>, k: nat) -> Move
    decreases k,
{
    if k == 0 {
        moves[0]
    } else {
        match root_choice(board, moves, k).0 {
            Some(choice) => choice,
            None => deepened(board, moves, (k - 1) as nat),
        }
    }
}

/// The deepest this strategy searches within `limits`: the depth they ask for, between one and
/// `MAX_DEPTH`, or `MAX_DEPTH`.
pub open spec fn max_depth_of(limits: Limits) -> nat {
    let depth = match limits.depth {
        Some(d) => d,
        None => MAX_DEPTH,
    };
    if depth < 1 {
        1
    } else if depth > MAX_DEPTH {
        MAX_DEPTH as nat
    } else {
        depth as nat
    }
}

/// What an `info` of this strategy reports in `board` with the root moves `moves`: a move among
/// them, and for a completed depth its score and its choice; depth 0 reports the move held when
/// no depth completed with a choice.
pub open spec fn reports_search(board: Board, moves: Seq<Move>, info: Info) -> bool {
    &&& moves.contains(info.best)
    &&& info.depth <= MAX_DEPTH
    &&& info.depth >= 1 ==> {
        &&& info.score == root_choice(board, moves, info.depth as nat).1
        &&& info.best == deepened(board, moves, info.depth as nat)
    }
    &&& info.depth == 0 ==> info.best == moves[0]
}

/// Material is counted from the side to move's point of view: the same pieces with the other
/// side to move count the opposite.
pub proof fn lemma_material_from_each_side(a: Board, b: Board)
    requires
        forall|piece: PieceKind| piece_squares(a, piece) == piece_squares(b, piece),
        forall|side: Side| side_squares(a, side) == side_squares(b, side),
        side_of(a) != side_of(b),
    ensures
        material(a) == -material(b),
{
    assert(lead_upto(a, 6) == lead_upto(b, 6)) by {
        assert forall|k: int| 0 <= k <= 6 implies lead_upto(a, k) == lead_upto(b, k) by {
            lemma_same_lead(a, b, k);
        }
    }
}

/// Boards with the same pieces on the same squares lead by the same material.
proof fn lemma_same_lead(a: Board, b: Board, k: int)
    requires
        forall|piece: PieceKind| piece_squares(a, piece) == piece_squares(b, piece),
        forall|side: Side| side_squares(a, side) == side_squares(b, side),
    ensures
        lead_upto(a, k) == lead_upto(b, k),
    decreases k,
{
    if k > 0 {
        lemma_same_lead(a, b, k - 1);
        let piece = all_piece_kinds()[k - 1];
        assert(piece_squares(a, piece) == piece_squares(b, piece));
        assert(side_squares(a, Side::White) == side_squares(b, Side::White));
        assert(side_squares(a, Side::Black) == side_squares(b, Side::Black));
    }
}

/// Whatever depth the search completes, the move it holds is one of the moves it may answer
/// with.
pub proof fn lemma_deepened_in(board: Board, moves: Seq<Move>, k: nat)
    requires
        moves.len() > 0,
    ensures
        moves.contains(deepened(board, moves, k)),
    decreases k,
{
    if k > 0 {
        lemma_root_choice_in(board, moves, k);
        lemma_deepened_in(board, moves, (k - 1) as nat);
    }
}

/// The choice of a depth, where there is one, is one of the moves.
proof fn lemma_root_choice_in(board: Board, moves: Seq<Move>, depth: nat)
    ensures
        root_choice(board, moves, depth).0 matches Some(m) ==> moves.contains(m),
    decreases moves.len(),
{
    if moves.len() > 0 {
        lemma_root_choice_in(board, moves.drop_last(), depth);
        let (candidate, _) = root_choice(board, moves.drop_last(), depth);
        if let Some(m) = candidate {
            let k = choose|k: int| 0 <= k < moves.drop_last().len() && moves.drop_last()[k] == m;
            assert(moves[k] == m);
        }
        assert(moves[moves.len() - 1] == moves.last());
    }
}

/// The best reply is the greatest of the negated scores of the positions the moves lead to, and
/// `WORST` where it beats them all: no move's negated score exceeds it, and it is one of them or
/// `WORST`.
pub proof fn lemma_best_reply_is_greatest(board: Board, moves: Seq<Move>, depth: nat)
    ensures
        best_reply(board, moves, depth) >= WORST,
        forall|j: int|
            0 <= j < moves.len() ==> -negamax_value(after_move(board, #[trigger] moves[j]), depth)
                <= best_reply(board, moves, depth),
        best_reply(board, moves, depth) == WORST || exists|j: int|
            0 <= j < moves.len() && best_reply(board, moves, depth) == -negamax_value(
                after_move(board, #[trigger] moves[j]),
                depth,
            ),
    decreases moves.len(),
{
    if moves.len() > 0 {
        let before = moves.drop_last();
        lemma_best_reply_is_greatest(board, before, depth);
        assert(moves[moves.len() - 1] == moves.last());
        assert forall|j: int| 0 <= j < moves.len() implies -negamax_value(
            after_move(board, #[trigger] moves[j]),
            depth,
        ) <= best_reply(board, moves, depth) by {
            if j < before.len() {
                assert(moves[j] == before[j]);
            }
        }
        if best_reply(board, moves, depth) != WORST && best_reply(board, moves, depth)
            == best_reply(board, before, depth) {
            let j = choose|j: int|
                0 <= j < before.len() && best_reply(board, before, depth) == -negamax_value(
                    after_move(board, #[trigger] before[j]),
                    depth,
                );
            assert(moves[j] == before[j]);
        }
    }
}

/// A checkmated side scores `MATED` plus the plies left, a draw nothing, a position where the
/// search ends its material, and any other position the best of its replies, a ply less deep.
pub proof fn lemma_negamax_value_cases(board: Board, depth: nat)
    ensures
        status_of(board) == Status::Won ==> negamax_value(board, depth) == MATED + depth,
        status_of(board) == Status::Drawn ==> negamax_value(board, depth) == 0,
        status_of(board) == Status::Ongoing && depth == 0 ==> negamax_value(board, depth)
            == material(board),
        status_of(board) == Status::Ongoing && depth > 0 ==> negamax_value(board, depth)
            == best_reply(board, legal_moves_of(board), (depth - 1) as nat),
{
}

/// The score of the root move `m` in `board`, searched `depth` plies: the negated score of the
/// position it leads to, searched a ply less.
pub open spec fn root_score(board: Board, m: Move, depth: nat) -> int {
    -negamax_value(after_move(board, m), (depth - 1) as nat)
}

/// A depth's choice is the first of the moves with the greatest score, where some move scores
/// above `WORST`, and its score is that greatest score; where none does, there is no choice.
pub proof fn lemma_root_choice_first_best(board: Board, moves: Seq<Move>, depth: nat)
    ensures
        root_choice(board, moves, depth).0 matches Some(m) ==> exists|i: int|
            #![trigger moves[i]]
            0 <= i < moves.len() && moves[i] == m && root_choice(board, moves, depth).1
                == root_score(board, m, depth) && root_score(board, m, depth) > WORST && (forall|
                j: int,
            |
                0 <= j < moves.len() ==> #[trigger] root_score(board, moves[j], depth)
                    <= root_score(board, m, depth)) && (forall|j: int|
                0 <= j < i ==> #[trigger] root_score(board, moves[j], depth) < root_score(
                    board,
                    m,
                    depth,
                )),
        root_choice(board, moves, depth).0 is None ==> root_choice(board, moves, depth).1 == WORST
            && forall|j: int|
            0 <= j < moves.len() ==> #[trigger] root_score(board, moves[j], depth) <= WORST,
    decreases moves.len(),
{
    if moves.len() > 0 {
        let before = moves.drop_last();
        lemma_root_choice_first_best(board, before, depth);
        let last = moves.last();
        let (candidate, best) = root_choice(board, before, depth);
        assert(moves[moves.len() - 1] == last);
        assert forall|j: int| 0 <= j < before.len() implies #[trigger] moves[j] == before[j] by {}
        if root_score(board, last, depth) > best {
            assert forall|j: int| 0 <= j < moves.len() implies #[trigger] root_score(
                board,
                moves[j],
                depth,
            ) <= root_score(board, last, depth) by {
                if j < before.len() {
                    assert(moves[j] == before[j]);
                    assert(root_score(board, before[j], depth) <= best);
                }
            }
            assert forall|j: int| 0 <= j < moves.len() - 1 implies #[trigger] root_score(
                board,
                moves[j],
                depth,
            ) < root_score(board, last, depth) by {
                assert(moves[j] == before[j]);
                assert(root_score(board, before[j], depth) <= best);
            }
        } else {
            if let Some(m) = candidate {
                let i = choose|i: int|
                    #![trigger before[i]]
                    0 <= i < before.len() && before[i] == m && best == root_score(board, m, depth)
                        && root_score(board, m, depth) > WORST && (forall|j: int|
                        0 <= j < before.len() ==> #[trigger] root_score(board, before[j], depth)
                            <= root_score(board, m, depth)) && (forall|j: int|
                        0 <= j < i ==> #[trigger] root_score(board, before[j], depth)
                            < root_score(board, m, depth));
                assert(moves[i] == m);
                assert forall|j: int| 0 <= j < moves.len() implies #[trigger] root_score(
                    board,
                    moves[j],
                    depth,
                ) <= root_score(board, m, depth) by {
                    if j < before.len() {
                        assert(moves[j] == before[j]);
                    }
                }
                assert forall|j: int| 0 <= j < i implies #[trigger] root_score(
                    board,
                    moves[j],
                    depth,
                ) < root_score(board, m, depth) by {
                    assert(moves[j] == before[j]);
                }
            } else {
                assert forall|j: int| 0 <= j < moves.len() implies #[trigger] root_score(
                    board,
                    moves[j],
                    depth,
                ) <= WORST by {
                    if j < before.len() {
                        assert(moves[j] == before[j]);
                    }
                }
            }
        }
    }
}

/// Iterative deepening holds the first move before any depth completes; each depth from one on
/// that completes with a choice replaces the move held by its own choice, and one without a
/// choice keeps the move held before it.
pub proof fn lemma_deepened_follows_each_depth(board: Board, moves: Seq<Move>, k: nat)
    ensures
        deepened(board, moves, 0) == moves[0],
        k >= 1 ==> (root_choice(board, moves, k).0 matches Some(c) ==> deepened(board, moves, k)
            == c),
        k >= 1 && root_choice(board, moves, k).0 is None ==> deepened(board, moves, k) == deepened(
            board,
            moves,
            (k - 1) as nat,
        ),
{
}

/// After the depths 1 to `k`, the move held is the choice of the deepest of them that reported,
/// or the first move where none did.
proof fn lemma_deepened_is_last_reported(board: Board, moves: Seq<Move>, k: nat)
    requires
        k <= 255,
    ensures
        reported_depths(board, moves, k).len() == 0 ==> deepened(board, moves, k) == moves[0],
        reported_depths(board, moves, k).len() > 0 ==> {
            let d = reported_depths(board, moves, k).last();
            &&& 1 <= d <= k
            &&& root_choice(board, moves, d as nat).0 == Some(deepened(board, moves, k))
        },
    decreases k,
{
    if k > 0 {
        lemma_deepened_is_last_reported(board, moves, (k - 1) as nat);
        let before = reported_depths(board, moves, (k - 1) as nat);
        if root_choice(board, moves, k).0 is Some {
            assert((before + seq![k as u8]).last() == k as u8);
        } else {
            assert(before + Seq::<u8>::empty() == before);
        }
    }
}

/// A search answers the choice of the deepest depth it reports, and the same move that report
/// names: the first root move with the greatest score at that depth. Where it reports only the
/// depth 0 of its fallback, it answers the first root move.
pub proof fn lemma_answer_is_deepest_choice<S: Fn(u64) -> bool>(
    board: Board,
    limits: Limits,
    spent: S,
    m: Move,
    added: Seq<Info>,
)
    requires
        answers_search(board, limits, spent, m, added),
    ensures
        added.len() > 0,
        added.last().depth >= 1 ==> root_choice(
            board,
            root_moves_of(board, limits),
            added.last().depth as nat,
        ).0 == Some(m),
        added.last().depth == 0 ==> m == root_moves_of(board, limits)[0],
{
    let root = root_moves_of(board, limits);
    let k = choose|k: nat|
        #![trigger deepened(board, root, k)]
        k <= max_depth_of(limits) && m == deepened(board, root, k) && depths_of(added)
            == reports_for(board, root, k) && (never_spent(spent) && search_cost(
            board,
            root,
            max_depth_of(limits),
        ) <= u64::MAX ==> k == max_depth_of(limits)) && (forall|j: nat|
            #![trigger search_cost(board, root, j)]
            1 <= j <= k ==> spent.ensures((search_cost(board, root, j) as u64,), false))
            && forall|t: nat|
            #![trigger spent_from(spent, t)]
            spent_from(spent, t) && k > 0 ==> search_cost(board, root, k) < t;
    lemma_deepened_is_last_reported(board, root, k);
    assert(depths_of(added).len() == added.len());
    assert(added.len() > 0);
    assert(depths_of(added)[added.len() - 1] == added.last().depth);
}

/// The positions the searches to depths 1 to `k` of the moves `root` from `board` visit
/// together, where each completes.
pub open spec fn search_cost(board: Board, root: Seq<Move>, k: nat) -> nat
    decreases k,
{
    if k == 0 {
        0
    } else {
        search_cost(board, root, (k - 1) as nat) + positions_below(board, root, (k - 1) as nat)
    }
}

/// Searching deeper never visits fewer positions.
proof fn lemma_search_cost_grows(board: Board, root: Seq<Move>, j: nat, k: nat)
    requires
        j <= k,
    ensures
        search_cost(board, root, j) <= search_cost(board, root, k),
    decreases k,
{
    if j < k {
        lemma_search_cost_grows(board, root, j, (k - 1) as nat);
    }
}

/// The depths, from 1 to `k`, that a search of the moves `root` from `board` reports once they
/// have completed: those that completed with a choice, in increasing order.
pub open spec fn reported_depths(board: Board, root: Seq<Move>, k: nat) -> Seq<u8>
    decreases k,
{
    if k == 0 {
        seq![]
    } else {
        reported_depths(board, root, (k - 1) as nat) + if root_choice(board, root, k).0 is Some {
            seq![k as u8]
        } else {
            seq![]
        }
    }
}

/// The depths of a list of reports.
pub open spec fn depths_of(infos: Seq<Info>) -> Seq<u8> {
    infos.map_values(|info: Info| info.depth)
}

/// The depths a search reports once the depths 1 to `k` have completed: those that completed
/// with a choice, or the single depth 0 of the move it falls back on where none did.
pub open spec fn reports_for(board: Board, root: Seq<Move>, k: nat) -> Seq<u8> {
    if reported_depths(board, root, k).len() > 0 {
        reported_depths(board, root, k)
    } else {
        seq![0u8]
    }
}

/// What a search of `board` within `limits`, asking `spent` whether they are spent, answers with
/// the move `m` and the reports `added`: for some number `k` of completed depths, at most the
/// deepest allowed, the move iterative deepening holds after them, and the depths they report
/// in order; where `spent` never answers yes and the count of positions cannot overflow, every
/// allowed depth completes; the search went past each completed depth only where `spent`, asked
/// with the positions visited by then, answered no, so that where `spent` answers yes from `t`
/// positions on, each completed depth ended below `t` positions.
pub open spec fn answers_search<S: Fn(u64) -> bool>(
    board: Board,
    limits: Limits,
    spent: S,
    m: Move,
    added: Seq<Info>,
) -> bool {
    let root = root_moves_of(board, limits);
    let max = max_depth_of(limits);
    exists|k: nat|
        #![trigger deepened(board, root, k)]
        k <= max && m == deepened(board, root, k) && depths_of(added) == reports_for(board, root, k)
            && (never_spent(spent) && search_cost(board, root, max) <= u64::MAX ==> k == max)
            && (forall|j: nat|
            #![trigger search_cost(board, root, j)]
            1 <= j <= k ==> spent.ensures((search_cost(board, root, j) as u64,), false))
            && forall|t: nat|
            #![trigger spent_from(spent, t)]
            spent_from(spent, t) && k > 0 ==> search_cost(board, root, k) < t
}

/// The move to play in `board`, searched as deeply as `limits` allow, or `None` when `limits`
/// leave no move (the game is over there, or no named move is playable). Before each move it
/// searches it asks `spent`, with the positions visited so far, whether the limits are spent.
/// Adds to `infos` one report for each depth that completed with a choice, and one report of the
/// move it falls back on where none did, handing each to `report` as soon as it is made. Where
/// `spent` answers yes from `t` positions on, no report counts more than `t` positions; where it
/// always answers yes, the search falls back on the first move at once.
pub fn pick<R: Fn(&Info), S: Fn(u64) -> bool>(
    board: &Board,
    limits: &Limits,
    infos: &mut Vec<Info>,
    report: &R,
    spent: &S,
) -> (played: Option<Move>)
    requires
        moves_legal(*board, *limits),
        forall|info: Info| report.requires((&info,)),
        forall|n: u64| spent.requires((n,)),
    ensures
        played is None <==> root_moves_of(*board, *limits).len() == 0,
        played is None ==> final(infos)@ == old(infos)@,
        limits.search_moves@.len() == 0 && status_of(*board) == Status::Ongoing
            ==> played is Some,
        final(infos)@.len() >= old(infos)@.len(),
        final(infos)@.take(old(infos)@.len() as int) == old(infos)@,
        forall|j: int|
            old(infos)@.len() <= j < final(infos)@.len() ==> reports_search(
                *board,
                root_moves_of(*board, *limits),
                #[trigger] final(infos)@[j],
            ),
        played matches Some(m) ==> {
            &&& legal_in(*board, m)
            &&& final(infos)@.len() > old(infos)@.len()
            &&& final(infos)@.last().best == m
            &&& answers_search(
                *board,
                *limits,
                *spent,
                m,
                final(infos)@.skip(old(infos)@.len() as int),
            )
        },
        forall|t: nat, j: int|
            #![trigger spent_from(*spent, t), final(infos)@[j]]
            spent_from(*spent, t) && old(infos)@.len() <= j < final(infos)@.len()
                ==> final(infos)@[j].nodes <= t,
        spent_from(*spent, 0) ==> (played matches Some(m) ==> m == root_moves_of(
            *board,
            *limits,
        )[0] && depths_of(final(infos)@.skip(old(infos)@.len() as int)) == seq![0u8]),
{
    let started = now();
    let moves = root_moves(board, limits);
    let ghost root = moves@;
    assert(forall|mv: Move| #[trigger] root.contains(mv) ==> legal_in(*board, mv));
    if moves.len() == 0 {
        return None;
    }
    let mut best = moves[0];
    let max_depth: u8 = match limits.depth {
        Some(d) => if d < 1 {
            1
        } else if d > MAX_DEPTH {
            MAX_DEPTH
        } else {
            d
        },
        None => MAX_DEPTH,
    };
    let ghost first = infos@.len();
    let ghost unbounded = never_spent(*spent) && search_cost(*board, root, max_depth as nat)
        <= u64::MAX;
    let mut nodes: u64 = 0;
    let mut reported = false;
    let mut depth: u8 = 1;
    assert(infos@.skip(first as int) == Seq::<Info>::empty());
    assert(depths_of(infos@.skip(first as int)) == Seq::<u8>::empty());
    while depth <= max_depth
        invariant_except_break
            nodes == search_cost(*board, root, (depth - 1) as nat),
        invariant
            moves@ == root,
            root == root_moves_of(*board, *limits),
            root.len() > 0,
            forall|mv: Move| #[trigger] root.contains(mv) ==> legal_in(*board, mv),
            max_depth == max_depth_of(*limits),
            max_depth <= MAX_DEPTH,
            1 <= depth <= max_depth + 1,
            first == old(infos)@.len(),
            !reported ==> best == root[0],
            best == deepened(*board, root, (depth - 1) as nat),
            infos@.len() >= first,
            infos@.take(first as int) == old(infos)@.take(first as int),
            forall|j: int|
                first <= j < infos@.len() ==> reports_search(*board, root, #[trigger] infos@[j]),
            reported ==> infos@.len() > first && infos@.last().best == best,
            depths_of(infos@.skip(first as int)) == reported_depths(
                *board,
                root,
                (depth - 1) as nat,
            ),
            reported <==> reported_depths(*board, root, (depth - 1) as nat).len() > 0,
            unbounded == (never_spent(*spent) && search_cost(*board, root, max_depth as nat)
                <= u64::MAX),
            forall|t: nat| spent_from(*spent, t) ==> nodes <= t,
            forall|t: nat, j: int|
                #![trigger spent_from(*spent, t), infos@[j]]
                spent_from(*spent, t) && first <= j < infos@.len() ==> infos@[j].nodes <= t,
            forall|t: nat|
                spent_from(*spent, t) && depth > 1 ==> search_cost(*board, root, (depth - 1) as nat)
                    < t,
            forall|j: nat|
                #![trigger search_cost(*board, root, j)]
                1 <= j < depth ==> spent.ensures((search_cost(*board, root, j) as u64,), false),
            forall|info: Info| report.requires((&info,)),
            forall|n: u64| spent.requires((n,)),
        ensures
            1 <= depth <= max_depth + 1,
            unbounded ==> depth == max_depth + 1,
        decreases max_depth + 1 - depth,
    {
        let mut candidate: Option<Move> = None;
        let mut best_score = WORST;
        let mut complete = true;
        let mut i: usize = 0;
        proof {
            lemma_search_cost_grows(*board, root, depth as nat, max_depth as nat);
            assert(root.take(0) == Seq::<Move>::empty());
        }
        while i < moves.len()
            invariant
                moves@ == root,
                forall|mv: Move| #[trigger] root.contains(mv) ==> legal_in(*board, mv),
                1 <= depth <= max_depth <= MAX_DEPTH,
                i <= root.len(),
                WORST <= best_score <= -WORST,
                complete ==> (candidate, best_score as int) == root_choice(
                    *board,
                    root.take(i as int),
                    depth as nat,
                ),
                forall|n: u64| spent.requires((n,)),
                unbounded == (never_spent(*spent) && search_cost(*board, root, max_depth as nat)
                    <= u64::MAX),
                search_cost(*board, root, depth as nat) <= search_cost(
                    *board,
                    root,
                    max_depth as nat,
                ),
                unbounded ==> complete,
                complete ==> nodes == search_cost(*board, root, (depth - 1) as nat)
                    + positions_below(*board, root.take(i as int), (depth - 1) as nat),
                forall|t: nat| spent_from(*spent, t) ==> nodes <= t,
            ensures
                WORST <= best_score <= -WORST,
                complete ==> i == root.len() && (candidate, best_score as int) == root_choice(
                    *board,
                    root.take(i as int),
                    depth as nat,
                ),
                unbounded ==> complete,
                complete ==> nodes == search_cost(*board, root, (depth - 1) as nat)
                    + positions_below(*board, root.take(i as int), (depth - 1) as nat),
                forall|t: nat| spent_from(*spent, t) ==> nodes <= t,
            decreases root.len() - i,
        {
            let stop = spent(nodes);
            if stop {
                complete = false;
                break;
            }
            assert(forall|t: nat| spent_from(*spent, t) ==> nodes < t) by {
                assert(spent.ensures((nodes,), stop));
            }
            let played = moves[i];
            assert(root.contains(played));
            let mut child = board.clone();
            play_unchecked(&mut child, played);
            proof {
                lemma_positions_below_prefix(*board, root, i + 1, (depth - 1) as nat);
                assert(root.take(i + 1).drop_last() == root.take(i as int));
                assert(root.take(i + 1).last() == played);
            }
            let (score, child_complete) = negamax(&child, depth - 1, spent, &mut nodes);
            if !child_complete {
                complete = false;
            }
            if -score > best_score {
                best_score = -score;
                candidate = Some(played);
            }
            i = i + 1;
        }
        // An iteration cut short by the limits carries no usable score.
        if !complete {
            break;
        }
        let stop = spent(nodes);
        if stop {
            break;
        }
        assert(forall|t: nat| spent_from(*spent, t) ==> nodes < t) by {
            assert(spent.ensures((nodes,), stop));
        }
        assert(root.take(root.len() as int) == root);
        let ghost before = infos@;
        if let Some(choice) = candidate {
            best = choice;
            proof {
                lemma_root_choice_in(*board, root, depth as nat);
            }
            assert(best == deepened(*board, root, depth as nat));
            let info = Info {
                depth,
                score: best_score,
                nodes,
                elapsed: elapsed_since(&started),
                best,
            };
            infos.push(info);
            report(&info);
            assert(infos@.take(first as int) == before.take(first as int));
            assert(reports_search(*board, root, info));
            assert forall|j: int| first <= j < infos@.len() implies reports_search(
                *board,
                root,
                #[trigger] infos@[j],
            ) by {
                if j < infos@.len() - 1 {
                    assert(infos@[j] == before[j]);
                }
            }
            assert(infos@.skip(first as int) == before.skip(first as int).push(info));
            assert(depths_of(infos@.skip(first as int)) == depths_of(before.skip(first as int))
                + seq![depth]);
            reported = true;
        }
        assert(best == deepened(*board, root, depth as nat));
        depth = depth + 1;
    }
    proof {
        lemma_deepened_in(*board, root, (depth - 1) as nat);
    }
    if !reported {
        let info = Info { depth: 0, score: 0, nodes, elapsed: elapsed_since(&started), best };
        let ghost before = infos@;
        infos.push(info);
        report(&info);
        assert(infos@.take(first as int) == before.take(first as int));
        assert(root.contains(root[0]));
        assert forall|j: int| first <= j < infos@.len() implies reports_search(
            *board,
            root,
            #[trigger] infos@[j],
        ) by {
            if j < infos@.len() - 1 {
                assert(infos@[j] == before[j]);
            }
        }
        assert(before.skip(first as int).len() == 0);
        assert(infos@.skip(first as int) == seq![info]);
        assert(depths_of(infos@.skip(first as int)) == seq![0u8]);
    }
    assert(old(infos)@.take(first as int) == old(infos)@);
    assert((depth - 1) as nat <= max_depth_of(*limits));
    assert(depths_of(infos@.skip(first as int)) == reports_for(*board, root, (depth - 1) as nat));
    assert(answers_search(*board, *limits, *spent, best, infos@.skip(first as int)));
    Some(best)
}

} // verus!
