//! The uniformly random strategy.

use cozy_chess::{Board, Move};
use rand::rngs::ThreadRng;
use rand::seq::IndexedRandom;
use vstd::prelude::*;

use super::{moves_legal, root_moves, root_moves_of, Info};
use crate::chess::{legal_in, status_of, Status};
use crate::search::Limits;
use crate::span::Span;

verus! {

/// The random number generator of the current thread: `rand::rngs::ThreadRng`, opaque here.
#[verifier::external_type_specification]
#[verifier::external_body]
pub struct ExThreadRng(ThreadRng);

/// `rand::rng`: a handle on the current thread's generator.
#[verifier::external_body]
fn thread_rng() -> ThreadRng {
    rand::rng()
}

/// `IndexedRandom::choose`: a move of `moves` drawn with `rng`, or `None` where there is none
/// (which move comes out depends on chance).
#[verifier::external_body]
fn choose_move(moves: &Vec<Move>, rng: &mut ThreadRng) -> (chosen: Option<Move>)
    ensures
        chosen is None <==> moves@.len() == 0,
        chosen matches Some(mv) ==> moves@.contains(mv),
{
    moves.choose(rng).copied()
}

/// A move `limits` allow in `board`, drawn uniformly, or `None` when there is none; reports it
/// as a search of one ply and one position, to `report` as soon as it is chosen and in `infos`.
pub fn pick<R: Fn(&Info)>(
    board: &Board,
    limits: &Limits,
    infos: &mut Vec<Info>,
    report: &R,
) -> (played: Option<Move>)
    requires
        forall|info: Info| report.requires((&info,)),
    ensures
        played is None <==> root_moves_of(*board, *limits).len() == 0,
        played is None ==> final(infos)@ == old(infos)@,
        limits.search_moves@.len() == 0 && status_of(*board) == Status::Ongoing
            ==> played is Some,
        played matches Some(m) ==> {
            &&& root_moves_of(*board, *limits).contains(m)
            &&& moves_legal(*board, *limits) ==> legal_in(*board, m)
            &&& final(infos)@ == old(infos)@.push(
                Info { depth: 1, score: 0, nodes: 1, elapsed: Span { nanos: 0 }, best: m },
            )
        },
{
    let moves = root_moves(board, limits);
    let mut rng = thread_rng();
    let chosen = choose_move(&moves, &mut rng);
    match chosen {
        Some(chosen) => {
            let info = Info { depth: 1, score: 0, nodes: 1, elapsed: Span::zero(), best: chosen };
            infos.push(info);
            report(&info);
            Some(chosen)
        },
        None => None,
    }
}

} // verus!
