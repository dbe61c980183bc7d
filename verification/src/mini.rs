use vstd::prelude::*;
use crate::bitboard::BitBoard;
use crate::color::Color;
use crate::piece::GameStatus;
use crate::piece::Move;
use crate::piece::Piece;
use crate::position::Position;
use crate::square::Square;

verus! {

/// A plain move between two square indices, with no promotion.
pub open spec fn step_move(f: u8, t: u8) -> Move {
    Move { from: Square(f), to: Square(t), promotion: None }
}

/// Build the move between two square indices.
pub fn make_step(f: u8, t: u8) -> (r: Move)
    ensures
        r == step_move(f, t),
{
    Move { from: Square(f), to: Square(t), promotion: None }
}

/// A small scripted game implementing [`Position`]: eight fixed positions
/// with hand-laid moves, a capture, a mate, draws, a reversible two-move
/// cycle and one book entry. It stands in for a full board where the search
/// and the game logic are exercised and tested.
#[derive(Clone, Copy, Debug, PartialEq, Eq, Structural)]
pub struct MiniGame(pub u8);

impl MiniGame {
    /// The starting position.
    pub fn start() -> (r: MiniGame)
        ensures
            r == MiniGame(0u8),
            r.wf(),
    {
        MiniGame(0)
    }

    /// The position holding the one book entry.
    pub fn book_start() -> (r: MiniGame)
        ensures
            r == MiniGame(5u8),
            r.wf(),
    {
        MiniGame(5)
    }

    /// The position with two lone pieces, drawn on bare material.
    pub fn bare_start() -> (r: MiniGame)
        ensures
            r == MiniGame(7u8),
            r.wf(),
    {
        MiniGame(7)
    }
}

impl Position for MiniGame {
    open spec fn wf(&self) -> bool {
        self.0 < 8
    }

    open spec fn status_spec(&self) -> GameStatus {
        if self.0 == 3 {
            GameStatus::Won
        } else if self.0 == 4 {
            GameStatus::Drawn
        } else {
            GameStatus::Ongoing
        }
    }

    open spec fn hash_spec(&self) -> u64 {
        self.0 as u64
    }

    open spec fn side_spec(&self) -> Color {
        if self.0 == 1 || self.0 == 2 || self.0 == 6 {
            Color::Black
        } else {
            Color::White
        }
    }

    open spec fn eval_spec(&self) -> int {
        if self.0 == 0 {
            10
        } else if self.0 == 1 {
            -5
        } else if self.0 == 2 {
            -10
        } else if self.0 == 7 {
            3
        } else {
            0
        }
    }

    open spec fn colors_spec(&self, c: Color) -> u64 {
        if self.0 == 0 {
            if c is White {
                0x1u64
            } else {
                0x100u64
            }
        } else if self.0 == 1 {
            if c is White {
                0x100000u64
            } else {
                0x100u64
            }
        } else if self.0 == 2 {
            if c is White {
                0x40000000u64
            } else {
                0x2u64
            }
        } else {
            0u64
        }
    }

    open spec fn pieces_spec(&self, p: Piece) -> u64 {
        if self.0 == 0 {
            if p == Piece::Pawn {
                0x1u64
            } else if p == Piece::Queen {
                0x100u64
            } else {
                0u64
            }
        } else if self.0 == 1 {
            if p == Piece::Pawn {
                0x100u64
            } else {
                0u64
            }
        } else if self.0 == 2 {
            if p == Piece::Pawn {
                0x2u64
            } else {
                0u64
            }
        } else {
            0u64
        }
    }

    open spec fn occupied_spec(&self) -> u64 {
        if self.0 == 7 {
            0x101u64
        } else {
            0x01010101u64
        }
    }

    open spec fn halfmove_spec(&self) -> int {
        if self.0 == 0 {
            5
        } else if self.0 == 1 {
            0
        } else if self.0 == 2 {
            7
        } else if self.0 == 5 {
            9
        } else if self.0 == 6 {
            2
        } else {
            4
        }
    }

    open spec fn moves_spec(&self) -> Seq<Move> {
        if self.0 == 0 {
            seq![step_move(0, 8), step_move(0, 1)]
        } else if self.0 == 1 {
            seq![step_move(8, 9), step_move(8, 10)]
        } else if self.0 == 2 {
            seq![step_move(1, 0)]
        } else if self.0 == 5 {
            seq![step_move(2, 3)]
        } else if self.0 == 6 {
            seq![step_move(3, 2)]
        } else if self.0 == 7 {
            seq![step_move(4, 5)]
        } else {
            Seq::empty()
        }
    }

    open spec fn after_spec(&self, mv: Move) -> MiniGame {
        if self.0 == 0 && mv == step_move(0, 8) {
            MiniGame(1)
        } else if self.0 == 0 && mv == step_move(0, 1) {
            MiniGame(2)
        } else if self.0 == 1 && mv == step_move(8, 9) {
            MiniGame(3)
        } else if self.0 == 1 && mv == step_move(8, 10) {
            MiniGame(4)
        } else if self.0 == 2 && mv == step_move(1, 0) {
            MiniGame(0)
        } else if self.0 == 5 && mv == step_move(2, 3) {
            MiniGame(6)
        } else if self.0 == 6 && mv == step_move(3, 2) {
            MiniGame(5)
        } else if self.0 == 7 && mv == step_move(4, 5) {
            MiniGame(7)
        } else {
            *self
        }
    }

    open spec fn book_spec(&self) -> Seq<Move> {
        if self.0 == 5 {
            seq![step_move(2, 3)]
        } else {
            Seq::empty()
        }
    }

    proof fn lemma_eval_bounded(&self) {
    }

    proof fn lemma_ongoing_has_moves(&self) {
        assert(self.moves_spec().len() > 0);
    }

    proof fn lemma_play_wf(&self, mv: Move) {
    }

    fn status(&self) -> (r: GameStatus) {
        if self.0 == 3 {
            GameStatus::Won
        } else if self.0 == 4 {
            GameStatus::Drawn
        } else {
            GameStatus::Ongoing
        }
    }

    fn hash(&self) -> (r: u64) {
        self.0 as u64
    }

    fn side_to_move(&self) -> (r: Color) {
        if self.0 == 1 || self.0 == 2 || self.0 == 6 {
            Color::Black
        } else {
            Color::White
        }
    }

    fn evaluate(&self) -> (r: i16) {
        if self.0 == 0 {
            10
        } else if self.0 == 1 {
            -5
        } else if self.0 == 2 {
            -10
        } else if self.0 == 7 {
            3
        } else {
            0
        }
    }

    fn colors(&self, c: Color) -> (r: BitBoard) {
        if self.0 == 0 {
            match c {
                Color::White => BitBoard(0x1),
                Color::Black => BitBoard(0x100),
            }
        } else if self.0 == 1 {
            match c {
                Color::White => BitBoard(0x100000),
                Color::Black => BitBoard(0x100),
            }
        } else if self.0 == 2 {
            match c {
                Color::White => BitBoard(0x40000000),
                Color::Black => BitBoard(0x2),
            }
        } else {
            BitBoard(0)
        }
    }

    fn pieces(&self, p: Piece) -> (r: BitBoard) {
        if self.0 == 0 {
            match p {
                Piece::Pawn => BitBoard(0x1),
                Piece::Queen => BitBoard(0x100),
                _ => BitBoard(0),
            }
        } else if self.0 == 1 {
            match p {
                Piece::Pawn => BitBoard(0x100),
                _ => BitBoard(0),
            }
        } else if self.0 == 2 {
            match p {
                Piece::Pawn => BitBoard(0x2),
                _ => BitBoard(0),
            }
        } else {
            BitBoard(0)
        }
    }

    fn occupied(&self) -> (r: BitBoard) {
        if self.0 == 7 {
            BitBoard(0x101)
        } else {
            BitBoard(0x01010101)
        }
    }

    fn halfmove_clock(&self) -> (r: u32) {
        if self.0 == 0 {
            5
        } else if self.0 == 1 {
            0
        } else if self.0 == 2 {
            7
        } else if self.0 == 5 {
            9
        } else if self.0 == 6 {
            2
        } else {
            4
        }
    }

    fn legal_moves(&self) -> (r: Vec<Move>) {
        let mut out: Vec<Move> = Vec::new();
        if self.0 == 0 {
            out.push(make_step(0, 8));
            out.push(make_step(0, 1));
        } else if self.0 == 1 {
            out.push(make_step(8, 9));
            out.push(make_step(8, 10));
        } else if self.0 == 2 {
            out.push(make_step(1, 0));
        } else if self.0 == 5 {
            out.push(make_step(2, 3));
        } else if self.0 == 6 {
            out.push(make_step(3, 2));
        } else if self.0 == 7 {
            out.push(make_step(4, 5));
        }
        proof {
            assert(out@ =~= self.moves_spec());
        }
        out
    }

    fn play(&self, mv: Move) -> (r: MiniGame) {
        if self.0 == 0 {
            if mv == make_step(0, 8) {
                MiniGame(1)
            } else {
                MiniGame(2)
            }
        } else if self.0 == 1 {
            if mv == make_step(8, 9) {
                MiniGame(3)
            } else {
                MiniGame(4)
            }
        } else if self.0 == 2 {
            MiniGame(0)
        } else if self.0 == 5 {
            MiniGame(6)
        } else if self.0 == 6 {
            MiniGame(5)
        } else {
            MiniGame(7)
        }
    }

    fn book_moves(&self) -> (r: Vec<Move>) {
        let mut out: Vec<Move> = Vec::new();
        if self.0 == 5 {
            out.push(make_step(2, 3));
        }
        proof {
            assert(out@ =~= self.book_spec());
            if self.0 == 5 {
                assert(self.moves_spec()[0] == step_move(2, 3));
            }
        }
        out
    }
}

} // verus!
