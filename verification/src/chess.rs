//! The chess rules this engine relies on, all of them computed by `cozy_chess`: boards and moves
//! are that crate's types, and what its functions return is named here.

use cozy_chess::util::{display_uci_move, parse_uci_move};
use cozy_chess::{Board, Color, GameStatus, Move, Piece};
use vstd::prelude::*;

verus! {

/// A chess position: `cozy_chess::Board`, opaque here.
#[verifier::external_type_specification]
#[verifier::external_body]
pub struct ExBoard(Board);

/// A move from one square to another, with its promotion: `cozy_chess::Move`, opaque here.
#[verifier::external_type_specification]
#[verifier::external_body]
pub struct ExMove(Move);

/// One of the two sides.
#[derive(Clone, Copy, Debug, PartialEq, Eq, Structural)]
pub enum Side {
    White,
    Black,
}

/// A kind of chess piece.
#[derive(Clone, Copy, Debug, PartialEq, Eq, Structural)]
pub enum PieceKind {
    Pawn,
    Knight,
    Bishop,
    Rook,
    Queen,
    King,
}

/// Where a game stands.
#[derive(Clone, Copy, Debug, PartialEq, Eq, Structural)]
pub enum Status {
    /// The side to move has been checkmated.
    Won,
    /// Stalemate, or the fifty-move rule.
    Drawn,
    /// The side to move has a legal move and the game goes on.
    Ongoing,
}


/// What `Board::from_fen` reads from `fen`, or `None` where it refuses it.
pub uninterp spec fn board_of_fen(fen: Seq<char>, shredder: bool) -> Option<Board>;

/// The move that `cozy_chess::util::parse_uci_move` reads from `text` in `board`, or `None`
/// where it refuses it.
pub uninterp spec fn uci_move_of(board: Board, text: Seq<char>) -> Option<Move>;

/// What `Board::is_legal` answers for `mv` in `board`.
pub uninterp spec fn legal_in(board: Board, mv: Move) -> bool;

/// The board that `Board::play_unchecked` leaves after `mv` is played in `board`.
pub uninterp spec fn after_move(board: Board, mv: Move) -> Board;

/// The FEN of the standard initial position.
pub open spec fn start_fen() -> Seq<char> {
    "rnbqkbnr/pppppppp/8/8/8/8/PPPPPPPP/RNBQKBNR w KQkq - 0 1"@
}

/// The standard initial position, as `Board::from_fen` reads it from `start_fen`.
pub open spec fn start_board() -> Board {
    board_of_fen(start_fen(), false).unwrap()
}

/// The legal moves of `board`, in the order in which `Board::generate_moves` hands them out.
pub uninterp spec fn legal_moves_of(board: Board) -> Seq<Move>;

/// The side to move in `board`, as `Board::side_to_move` answers.
pub uninterp spec fn side_of(board: Board) -> Side;

/// Where the game in `board` stands, as `Board::status` answers.
pub uninterp spec fn status_of(board: Board) -> Status;

/// The squares that hold a piece of kind `piece` in `board`, as the bits of the mask that
/// `Board::pieces` returns.
pub uninterp spec fn piece_squares(board: Board, piece: PieceKind) -> u64;

/// The squares that hold a piece of `side` in `board`, as the bits of the mask that
/// `Board::colors` returns.
pub uninterp spec fn side_squares(board: Board, side: Side) -> u64;

/// The text that `cozy_chess::util::display_uci_move` writes for `mv` in `board`.
pub uninterp spec fn uci_text_of(board: Board, mv: Move) -> Seq<char>;

/// `Board::clone`: the derived clone copies every field of the board, so the copy is the same
/// board.
pub assume_specification[ <Board as Clone>::clone ](board: &Board) -> (copy: Board)
    ensures
        copy == *board,
;

/// `Board::startpos`: the standard initial position. The crate's documentation shows that it is
/// the board `Board::from_fen` reads from `start_fen` (the example above `startpos` compares
/// `Board::default`, which `BoardBuilder::default` makes the start position, with that FEN read
/// by `FromStr`, which reads it with `from_fen(.., false)`).
#[verifier::external_body]
pub fn start_position() -> (board: Board)
    ensures
        board_of_fen(start_fen(), false) == Some(board),
{
    Board::startpos()
}

/// `Board::from_fen`: the board `fen` describes, or `None` where the crate refuses it (its error
/// is dropped).
#[verifier::external_body]
pub fn board_from_fen(fen: &str, shredder: bool) -> (board: Option<Board>)
    ensures
        board == board_of_fen(fen@, shredder),
{
    Board::from_fen(fen, shredder).ok()
}

/// `cozy_chess::util::parse_uci_move`: the move `text` writes in UCI notation, castling written
/// as the king's two-square step, or `None` where the text is no move (its error is dropped).
/// The crate looks up the king of the side to move, which every board it builds holds.
#[verifier::external_body]
pub fn parse_move(board: &Board, text: &str) -> (mv: Option<Move>)
    ensures
        mv == uci_move_of(*board, text@),
{
    parse_uci_move(board, text).ok()
}

/// `Board::is_legal`: whether `mv` can be played in `board`.
#[verifier::external_body]
pub fn is_legal(board: &Board, mv: Move) -> (legal: bool)
    ensures
        legal == legal_in(*board, mv),
{
    board.is_legal(mv)
}

/// `Board::try_play`: its source checks `is_legal` and, where the move is legal, plays it with
/// `play_unchecked`; an illegal move leaves the board as it was.
#[verifier::external_body]
pub fn try_play(board: &mut Board, mv: Move) -> (played: bool)
    ensures
        played == legal_in(*old(board), mv),
        played ==> *final(board) == after_move(*old(board), mv),
        !played ==> *final(board) == *old(board),
{
    board.try_play(mv).is_ok()
}

/// `Board::play_unchecked`: plays a legal move (the crate may panic on an illegal one).
#[verifier::external_body]
pub fn play_unchecked(board: &mut Board, mv: Move)
    requires
        legal_in(*old(board), mv),
    ensures
        *final(board) == after_move(*old(board), mv),
{
    board.play_unchecked(mv)
}

/// Collects the moves of one piece that `Board::generate_moves` hands out, and lets it go on.
fn collect_group(moves: &mut Vec<Move>, group: Vec<Move>) -> (stop: bool)
    ensures
        final(moves)@ == old(moves)@ + group@,
        !stop,
{
    let mut group = group;
    moves.append(&mut group);
    false
}

/// `Board::generate_moves`: every legal move of `board`, in the order in which the crate hands
/// them out; its documentation says that they are all the legal moves, so a move is in the list
/// exactly where `is_legal` accepts it. `Board::status` answers `Ongoing` only where there is
/// one.
#[verifier::external_body]
pub fn legal_moves(board: &Board) -> (moves: Vec<Move>)
    ensures
        moves@ == legal_moves_of(*board),
        forall|mv: Move| moves@.contains(mv) <==> legal_in(*board, mv),
        status_of(*board) == Status::Ongoing ==> moves@.len() > 0,
{
    let mut moves = Vec::new();
    board.generate_moves(|piece_moves| collect_group(&mut moves, piece_moves.into_iter().collect()));
    moves
}

/// `Board::side_to_move`, as this library's `Side`.
#[verifier::external_body]
pub fn side_to_move(board: &Board) -> (side: Side)
    ensures
        side == side_of(*board),
{
    match board.side_to_move() {
        Color::White => Side::White,
        Color::Black => Side::Black,
    }
}

/// `Board::status`, as this library's `Status`. Its source answers `Ongoing` only where
/// `generate_moves` hands out a group of moves, and each group holds at least one move, so an
/// ongoing game has a legal move.
#[verifier::external_body]
pub fn game_status(board: &Board) -> (status: Status)
    ensures
        status == status_of(*board),
        status == Status::Ongoing ==> legal_moves_of(*board).len() > 0,
{
    match board.status() {
        GameStatus::Won => Status::Won,
        GameStatus::Drawn => Status::Drawn,
        GameStatus::Ongoing => Status::Ongoing,
    }
}

/// `Board::pieces`: the mask of the squares that hold a piece of kind `piece`.
#[verifier::external_body]
pub fn pieces_mask(board: &Board, piece: PieceKind) -> (mask: u64)
    ensures
        mask == piece_squares(*board, piece),
{
    let piece = match piece {
        PieceKind::Pawn => Piece::Pawn,
        PieceKind::Knight => Piece::Knight,
        PieceKind::Bishop => Piece::Bishop,
        PieceKind::Rook => Piece::Rook,
        PieceKind::Queen => Piece::Queen,
        PieceKind::King => Piece::King,
    };
    board.pieces(piece).0
}

/// `Board::colors`: the mask of the squares that hold a piece of `side`.
#[verifier::external_body]
pub fn colors_mask(board: &Board, side: Side) -> (mask: u64)
    ensures
        mask == side_squares(*board, side),
{
    let color = match side {
        Side::White => Color::White,
        Side::Black => Color::Black,
    };
    board.colors(color).0
}

/// `cozy_chess::util::display_uci_move`: `mv` in UCI notation, castling written as the king's
/// two-square step.
#[verifier::external_body]
pub fn uci_move_text(board: &Board, mv: Move) -> (text: String)
    ensures
        text@ == uci_text_of(*board, mv),
{
    display_uci_move(board, mv).to_string()
}

} // verus!
