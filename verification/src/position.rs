//! Chess positions and the moves played on them.
//!
//! The rules of chess are shakmaty's. A position is carried as shakmaty's
//! `Chess`, of which nothing is known here but what the functions below state.

use shakmaty::san::San;
use shakmaty::{Board, Chess, Move, Position, Setup};
use vstd::prelude::*;

verus! {

/// shakmaty's position of standard chess.
#[verifier::external_type_specification]
#[verifier::external_body]
pub struct ExChess(Chess);

/// shakmaty's board: where the pieces stand.
#[verifier::external_type_specification]
#[verifier::external_body]
pub struct ExBoard(Board);

/// shakmaty's move in standard algebraic notation.
#[verifier::external_type_specification]
#[verifier::external_body]
pub struct ExSan(San);

/// shakmaty's move.
#[verifier::external_type_specification]
#[verifier::external_body]
pub struct ExMove(Move);

/// Whether a position is the standard starting position or has been reached
/// from it by legal moves.
pub uninterp spec fn sound(position: Chess) -> bool;

/// Whether a move is legal in a position.
pub uninterp spec fn legal_in(position: Chess, m: Move) -> bool;

/// What `San::from_ascii` reads from a token.
pub uninterp spec fn parsed_san(token: Seq<u8>) -> Option<San>;

/// The move that `San::to_move` finds for a notation in a position.
pub uninterp spec fn san_move(san: San, position: Chess) -> Option<Move>;

/// The position that `Position::play_unchecked` makes of a position and a move.
pub uninterp spec fn played(position: Chess, m: Move) -> Chess;

/// The board that `Setup::board` gives for a position.
pub uninterp spec fn placement(position: Chess) -> Board;

/// `Chess` derives `Clone`: a copy equals the position it was made from.
pub assume_specification[ <Chess as Clone>::clone ](position: &Chess) -> (copy: Chess)
    ensures
        copy == *position,
;

/// `Board` derives `Clone`: a copy equals the board it was made from.
pub assume_specification[ <Board as Clone>::clone ](board: &Board) -> (copy: Board)
    ensures
        copy == *board,
;

/// Calls `Chess::default`, the standard starting position.
#[verifier::external_body]
pub(crate) fn standard_start() -> (start: Chess)
    ensures
        sound(start),
{
    Chess::default()
}

/// Calls `San::from_ascii`, which reads a move in standard algebraic notation
/// and fails on text that is none. The result depends on the token alone.
#[verifier::external_body]
pub(crate) fn parse_san(token: &[u8]) -> (san: Option<San>)
    ensures
        san == parsed_san(token@),
{
    San::from_ascii(token).ok()
}

/// Calls `San::to_move`, which gives the one legal move of the position that
/// the notation matches and fails where none or several match. The result
/// depends on the notation and the position alone.
#[verifier::external_body]
pub(crate) fn san_to_move(san: &San, position: &Chess) -> (m: Option<Move>)
    requires
        sound(*position),
    ensures
        m == san_move(*san, *position),
        m matches Some(found) ==> legal_in(*position, found),
{
    san.to_move(position).ok()
}

/// Calls `Position::play_unchecked` on a copy of the position. The move has
/// to be legal; the position that results depends on the two alone and can
/// be played from in turn.
#[verifier::external_body]
pub(crate) fn play(position: &Chess, m: &Move) -> (next: Chess)
    requires
        sound(*position),
        legal_in(*position, *m),
    ensures
        next == played(*position, *m),
        sound(next),
{
    let mut next = position.clone();
    next.play_unchecked(m);
    next
}

/// Calls `Setup::board` and copies the board: where the pieces stand, without
/// the history of the game.
#[verifier::external_body]
pub(crate) fn board_of(position: &Chess) -> (board: Board)
    ensures
        board == placement(*position),
{
    position.board().clone()
}

/// The position that a move in standard algebraic notation leads to: none
/// where the token is no notation or matches no single legal move.
pub open spec fn san_successor(position: Chess, token: Seq<u8>) -> Option<Chess> {
    match parsed_san(token) {
        None => None,
        Some(san) => match san_move(san, position) {
            None => None,
            Some(m) => Some(played(position, m)),
        },
    }
}

/// Plays a move given in standard algebraic notation.
pub(crate) fn resolve(position: &Chess, token: &[u8]) -> (next: Option<Chess>)
    requires
        sound(*position),
    ensures
        next == san_successor(*position, token@),
        next matches Some(reached) ==> sound(reached),
{
    match parse_san(token) {
        None => None,
        Some(san) => match san_to_move(&san, position) {
            None => None,
            Some(m) => Some(play(position, &m)),
        },
    }
}

} // verus!
