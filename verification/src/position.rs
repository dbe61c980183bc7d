use vstd::prelude::*;
use crate::bitboard::BitBoard;
use crate::color::Color;
use crate::piece::GameStatus;
use crate::piece::Move;
use crate::piece::Piece;

verus! {

/// The board abstraction the search consumes. An implementor supplies full
/// move legality, a position hash, a terminal-status check, a static
/// evaluation from the side to move's perspective, and an opening-book
/// lookup; each executable method is pinned to a specification function, so
/// the search's own result is a function of the position alone.
pub trait Position: Sized {
    /// The position is a well-formed reachable game state.
    spec fn wf(&self) -> bool;

    /// The terminal status: `Won` means the side to move has lost.
    spec fn status_spec(&self) -> GameStatus;

    /// The position's fingerprint: equal positions hash equally.
    spec fn hash_spec(&self) -> u64;

    /// The side to move.
    spec fn side_spec(&self) -> Color;

    /// The static evaluation, from the side to move's perspective.
    spec fn eval_spec(&self) -> int;

    /// The squares occupied by `c`'s pieces, as a bitboard word.
    spec fn colors_spec(&self, c: Color) -> u64;

    /// The squares occupied by pieces of kind `p`, of either side.
    spec fn pieces_spec(&self, p: Piece) -> u64;

    /// The squares occupied by any piece.
    spec fn occupied_spec(&self) -> u64;

    /// Halfmoves since the last irreversible move; zero right after one.
    spec fn halfmove_spec(&self) -> int;

    /// Every legal move, in the order the generator yields them.
    spec fn moves_spec(&self) -> Seq<Move>;

    /// The position after a legal move is applied.
    spec fn after_spec(&self, mv: Move) -> Self;

    /// The opening book's move list for this position.
    spec fn book_spec(&self) -> Seq<Move>;

    /// The static evaluation keeps clear of the mate-score band.
    proof fn lemma_eval_bounded(&self)
        requires
            self.wf(),
        ensures
            -9_900 <= self.eval_spec() <= 9_900,
    ;

    /// A position that is still running has a legal move.
    proof fn lemma_ongoing_has_moves(&self)
        requires
            self.wf(),
            self.status_spec() == GameStatus::Ongoing,
        ensures
            self.moves_spec().len() > 0,
    ;

    /// Applying a legal move yields a well-formed position.
    proof fn lemma_play_wf(&self, mv: Move)
        requires
            self.wf(),
            self.moves_spec().contains(mv),
        ensures
            self.after_spec(mv).wf(),
    ;

    fn status(&self) -> (r: GameStatus)
        requires
            self.wf(),
        ensures
            r == self.status_spec(),
    ;

    fn hash(&self) -> (r: u64)
        requires
            self.wf(),
        ensures
            r == self.hash_spec(),
    ;

    fn side_to_move(&self) -> (r: Color)
        requires
            self.wf(),
        ensures
            r == self.side_spec(),
    ;

    fn evaluate(&self) -> (r: i16)
        requires
            self.wf(),
        ensures
            r as int == self.eval_spec(),
    ;

    fn colors(&self, c: Color) -> (r: BitBoard)
        requires
            self.wf(),
        ensures
            r.0 == self.colors_spec(c),
    ;

    fn pieces(&self, p: Piece) -> (r: BitBoard)
        requires
            self.wf(),
        ensures
            r.0 == self.pieces_spec(p),
    ;

    fn occupied(&self) -> (r: BitBoard)
        requires
            self.wf(),
        ensures
            r.0 == self.occupied_spec(),
    ;

    fn halfmove_clock(&self) -> (r: u32)
        requires
            self.wf(),
        ensures
            r as int == self.halfmove_spec(),
    ;

    fn legal_moves(&self) -> (r: Vec<Move>)
        requires
            self.wf(),
        ensures
            r@ == self.moves_spec(),
    ;

    fn play(&self, mv: Move) -> (r: Self)
        requires
            self.wf(),
            self.moves_spec().contains(mv),
        ensures
            r == self.after_spec(mv),
    ;

    fn book_moves(&self) -> (r: Vec<Move>)
        requires
            self.wf(),
        ensures
            r@ == self.book_spec(),
            forall|i: int| 0 <= i < self.book_spec().len() ==> self.moves_spec().contains(
                #[trigger] self.book_spec()[i],
            ),
    ;
}

} // verus!
