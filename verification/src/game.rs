use vstd::prelude::*;
use crate::bitboard::popcount;
use crate::history::History;
use crate::history::hist_contents;
use crate::history::hist_new;
use crate::history::hist_push;
use crate::history::hist_clear;
use crate::history::hist_as_slice;
use crate::history::hist_count;
use crate::history::count_eq;
use crate::piece::GameStatus;
use crate::piece::Move;
use crate::piece::Piece;
use crate::position::Position;

verus! {

/// Whether `moves` holds a move equal to `mv`.
pub fn contains_move(moves: &Vec<Move>, mv: Move) -> (r: bool)
    ensures
        r == moves@.contains(mv),
{
    let mut i: usize = 0;
    while i < moves.len()
        invariant
            0 <= i <= moves@.len(),
            forall|j: int| 0 <= j < i ==> moves@[j] != mv,
        decreases moves@.len() - i,
    {
        if moves[i] == mv {
            return true;
        }
        i = i + 1;
    }
    proof {
        if moves@.contains(mv) {
            let j = choose|j: int| 0 <= j < moves@.len() && moves@[j] == mv;
            assert(false);
        }
    }
    false
}

/// A running game: a board position together with the bounded history of
/// position hashes since the last irreversible move.
pub struct ChessGame<P: Position> {
    pub board: P,
    pub history: History,
}

impl<P: Position> ChessGame<P> {
    /// The board is sound, the history is nonempty and within capacity, and
    /// its newest entry is the current position's hash.
    pub open spec fn wf(&self) -> bool {
        &&& self.board.wf()
        &&& 1 <= hist_contents(self.history).len() <= 150
        &&& hist_contents(self.history).last() == self.board.hash_spec()
    }

    /// Draw by bare material: two lone kings, or a king and one minor piece
    /// against a king.
    pub open spec fn insufficient_material(&self) -> bool {
        ||| popcount(self.board.occupied_spec()) == 2
        ||| (popcount(self.board.occupied_spec()) == 3 && (self.board.pieces_spec(Piece::Bishop)
            | self.board.pieces_spec(Piece::Knight)) != 0)
    }

    /// The game's status: drawn on bare material, drawn when the current
    /// position has been seen three times, and otherwise whatever the
    /// board's own terminal-status check reports.
    pub open spec fn status_spec(&self) -> GameStatus {
        if self.insufficient_material() {
            GameStatus::Drawn
        } else if count_eq(hist_contents(self.history), hist_contents(self.history).last())
            >= 3 {
            GameStatus::Drawn
        } else {
            self.board.status_spec()
        }
    }

    /// Start a game from a position; the history holds its hash alone.
    pub fn new(board: P) -> (r: Self)
        requires
            board.wf(),
        ensures
            r.wf(),
            r.board == board,
            hist_contents(r.history) == seq![board.hash_spec()],
    {
        let mut history = hist_new();
        let h = board.hash();
        let res = hist_push(&mut history, h);
        proof {
            assert(hist_contents(history) =~= seq![board.hash_spec()]);
        }
        ChessGame { board, history }
    }

    /// The current position.
    pub fn board(&self) -> (r: &P)
        ensures
            *r == self.board,
    {
        &self.board
    }

    /// The hashes of the positions seen since the last irreversible move,
    /// oldest first and the current position last.
    pub fn history(&self) -> (r: &[u64])
        ensures
            r@ == hist_contents(self.history),
    {
        hist_as_slice(&self.history)
    }

    /// Play a move if the game is still running and the move is legal;
    /// report whether it was applied. On an irreversible move (the board's
    /// halfmove clock reset) the history is cleared first, and the new
    /// position's hash is recorded either way.
    pub fn try_play(&mut self, mv: Move) -> (r: bool)
        requires
            old(self).wf(),
            hist_contents(old(self).history).len() < 150,
        ensures
            final(self).wf(),
            r == (old(self).status_spec() == GameStatus::Ongoing
                && old(self).board.moves_spec().contains(mv)),
            !r ==> *final(self) == *old(self),
            r ==> final(self).board == old(self).board.after_spec(mv),
            r ==> hist_contents(final(self).history) == (if old(self).board.after_spec(
                mv,
            ).halfmove_spec() == 0 {
                seq![old(self).board.after_spec(mv).hash_spec()]
            } else {
                hist_contents(old(self).history).push(old(self).board.after_spec(mv).hash_spec())
            }),
    {
        if !matches!(self.status(), GameStatus::Ongoing) {
            return false;
        }
        let moves = self.board.legal_moves();
        if !contains_move(&moves, mv) {
            return false;
        }
        let new_board = self.board.play(mv);
        proof {
            old(self).board.lemma_play_wf(mv);
        }
        self.board = new_board;
        if self.board.halfmove_clock() == 0 {
            hist_clear(&mut self.history);
        }
        let h = self.board.hash();
        let res = hist_push(&mut self.history, h);
        proof {
            assert(hist_contents(self.history).last() == self.board.hash_spec());
        }
        true
    }

    /// The game's status; see [`Self::status_spec`].
    pub fn status(&self) -> (r: GameStatus)
        requires
            self.wf(),
        ensures
            r == self.status_spec(),
    {
        let bishops = self.board.pieces(Piece::Bishop);
        let knights = self.board.pieces(Piece::Knight);
        let occ = self.board.occupied();
        let n = occ.popcnt();
        if n == 2 {
            return GameStatus::Drawn;
        }
        if n == 3 {
            let minors = bishops.union(knights);
            if !minors.is_empty() {
                return GameStatus::Drawn;
            }
        }
        let s = hist_as_slice(&self.history);
        let current = s[s.len() - 1];
        proof {
            assert(current == hist_contents(self.history).last());
        }
        let reps = hist_count(&self.history, current);
        if reps >= 3 {
            return GameStatus::Drawn;
        }
        self.board.status()
    }
}

} // verus!
