use vstd::prelude::*;
use vstd::string::StrSliceExecFns;
use vstd::string::StringExecFns;
use crate::bitboard::BitBoard;
use crate::bitboard::bit64;
use crate::bitboard::lemma_bit_single;
use crate::color::Color;

verus! {

/// A column of the board, from the queen's side to the king's side.
#[derive(Clone, Copy, Debug, PartialEq, Eq, Structural)]
pub enum File {
    A,
    B,
    C,
    D,
    E,
    F,
    G,
    H,
}

/// The file whose ordinal is `i`, for `i` in `0..8`.
pub open spec fn file_from_index(i: int) -> File {
    if i == 0 {
        File::A
    } else if i == 1 {
        File::B
    } else if i == 2 {
        File::C
    } else if i == 3 {
        File::D
    } else if i == 4 {
        File::E
    } else if i == 5 {
        File::F
    } else if i == 6 {
        File::G
    } else {
        File::H
    }
}

impl File {
    /// The ordinal of this file, `0..8`.
    pub open spec fn index_spec(self) -> int {
        match self {
            File::A => 0,
            File::B => 1,
            File::C => 2,
            File::D => 3,
            File::E => 4,
            File::F => 5,
            File::G => 6,
            File::H => 7,
        }
    }

    pub fn index(self) -> (r: u8)
        ensures
            r == self.index_spec(),
    {
        match self {
            File::A => 0,
            File::B => 1,
            File::C => 2,
            File::D => 3,
            File::E => 4,
            File::F => 5,
            File::G => 6,
            File::H => 7,
        }
    }

    /// The file of ordinal `i`, absent when `i` is out of range.
    pub fn try_index(i: usize) -> (r: Option<File>)
        ensures
            r == (if i < 8 {
                Some(file_from_index(i as int))
            } else {
                None::<File>
            }),
    {
        match i {
            0 => Some(File::A),
            1 => Some(File::B),
            2 => Some(File::C),
            3 => Some(File::D),
            4 => Some(File::E),
            5 => Some(File::F),
            6 => Some(File::G),
            7 => Some(File::H),
            _ => None,
        }
    }

    /// All squares sharing this file.
    pub fn bitboard(self) -> (r: BitBoard)
        ensures
            forall|t: Square| t.wf() ==> (#[trigger] r.contains_spec(t) <==> t.file_spec()
                == self.index_spec()),
    {
        let f = self.index();
        let bb = BitBoard(0x0101010101010101u64 << (f as u64));
        proof {
            let ff = self.index_spec() as u64;
            assert(forall|x: u64, j: u64|
                x < 8 && j < 64 ==> ((((0x0101010101010101u64 << x) >> j) & 1u64 == 1u64) <==> j
                    % 8 == x)) by (bit_vector);
            assert forall|t: Square| t.wf() implies (#[trigger] bb.contains_spec(t)
                <==> t.file_spec() == self.index_spec()) by {
                let j = t.idx() as u64;
                assert(bit64(bb.0, t.idx()) == (((0x0101010101010101u64 << ff) >> j) & 1u64
                    == 1u64));
            }
        }
        bb
    }
}

/// A row of the board, from White's home rank to Black's.
#[derive(Clone, Copy, Debug, PartialEq, Eq, Structural)]
pub enum Rank {
    First,
    Second,
    Third,
    Fourth,
    Fifth,
    Sixth,
    Seventh,
    Eighth,
}

/// The rank whose ordinal is `i`, for `i` in `0..8`.
pub open spec fn rank_from_index(i: int) -> Rank {
    if i == 0 {
        Rank::First
    } else if i == 1 {
        Rank::Second
    } else if i == 2 {
        Rank::Third
    } else if i == 3 {
        Rank::Fourth
    } else if i == 4 {
        Rank::Fifth
    } else if i == 5 {
        Rank::Sixth
    } else if i == 6 {
        Rank::Seventh
    } else {
        Rank::Eighth
    }
}

impl Rank {
    /// The ordinal of this rank, `0..8`.
    pub open spec fn index_spec(self) -> int {
        match self {
            Rank::First => 0,
            Rank::Second => 1,
            Rank::Third => 2,
            Rank::Fourth => 3,
            Rank::Fifth => 4,
            Rank::Sixth => 5,
            Rank::Seventh => 6,
            Rank::Eighth => 7,
        }
    }

    pub fn index(self) -> (r: u8)
        ensures
            r == self.index_spec(),
    {
        match self {
            Rank::First => 0,
            Rank::Second => 1,
            Rank::Third => 2,
            Rank::Fourth => 3,
            Rank::Fifth => 4,
            Rank::Sixth => 5,
            Rank::Seventh => 6,
            Rank::Eighth => 7,
        }
    }

    /// The rank of ordinal `i`, absent when `i` is out of range.
    pub fn try_index(i: usize) -> (r: Option<Rank>)
        ensures
            r == (if i < 8 {
                Some(rank_from_index(i as int))
            } else {
                None::<Rank>
            }),
    {
        match i {
            0 => Some(Rank::First),
            1 => Some(Rank::Second),
            2 => Some(Rank::Third),
            3 => Some(Rank::Fourth),
            4 => Some(Rank::Fifth),
            5 => Some(Rank::Sixth),
            6 => Some(Rank::Seventh),
            7 => Some(Rank::Eighth),
            _ => None,
        }
    }

    /// The rank as seen from `color`'s side: unchanged for White, mirrored for Black.
    pub fn relative_to(self, color: Color) -> (r: Rank)
        ensures
            r.index_spec() == (if color is White {
                self.index_spec()
            } else {
                7 - self.index_spec()
            }),
    {
        match color {
            Color::White => self,
            Color::Black => match self {
                Rank::First => Rank::Eighth,
                Rank::Second => Rank::Seventh,
                Rank::Third => Rank::Sixth,
                Rank::Fourth => Rank::Fifth,
                Rank::Fifth => Rank::Fourth,
                Rank::Sixth => Rank::Third,
                Rank::Seventh => Rank::Second,
                Rank::Eighth => Rank::First,
            },
        }
    }

    /// All squares sharing this rank.
    pub fn bitboard(self) -> (r: BitBoard)
        ensures
            forall|t: Square| t.wf() ==> (#[trigger] r.contains_spec(t) <==> t.rank_spec()
                == self.index_spec()),
    {
        let k = self.index();
        let bb = BitBoard(0xFFu64 << ((8 * k) as u64));
        proof {
            let kk = self.index_spec() as u64;
            assert(forall|x: u64, j: u64|
                x < 8 && j < 64 ==> ((((0xFFu64 << (x << 3u64)) >> j) & 1u64 == 1u64) <==> j / 8
                    == x)) by (bit_vector);
            assert(kk < 8 ==> (kk << 3u64) == 8 * kk) by (bit_vector);
            assert forall|t: Square| t.wf() implies (#[trigger] bb.contains_spec(t)
                <==> t.rank_spec() == self.index_spec()) by {
                let j = t.idx() as u64;
                assert(bit64(bb.0, t.idx()) == (((0xFFu64 << (kk << 3u64)) >> j) & 1u64 == 1u64));
            }
        }
        bb
    }
}

/// A board square, encoded as `rank * 8 + file`.
#[derive(Clone, Copy, Debug, PartialEq, Eq, Structural)]
pub struct Square(pub u8);

/// An error while parsing a [`Square`].
#[derive(Debug, Clone, Copy, PartialEq, Eq, Structural)]
pub enum SquareParseError {
    InvalidSquare,
}

impl Square {
    /// The square's index, `0..64` for a well-formed square.
    pub open spec fn idx(self) -> int {
        self.0 as int
    }

    /// The square's index denotes a real board square.
    pub open spec fn wf(self) -> bool {
        0 <= self.idx() < 64
    }

    /// The ordinal of the square's file, `0..8`.
    pub open spec fn file_spec(self) -> int {
        self.idx() % 8
    }

    /// The ordinal of the square's rank, `0..8`.
    pub open spec fn rank_spec(self) -> int {
        self.idx() / 8
    }

    /// Make a square from a file and a rank.
    pub fn new(file: File, rank: Rank) -> (r: Square)
        ensures
            r.wf(),
            r.file_spec() == file.index_spec(),
            r.rank_spec() == rank.index_spec(),
    {
        Square(rank.index() * 8 + file.index())
    }

    /// Get the file of this square.
    pub fn file(self) -> (r: File)
        requires
            self.wf(),
        ensures
            r.index_spec() == self.file_spec(),
            r == file_from_index(self.file_spec()),
    {
        let r = File::try_index((self.0 & 0b000111) as usize);
        proof {
            let x = self.0;
            assert(x & 7 == x % 8) by (bit_vector);
        }
        r.unwrap()
    }

    /// Get the rank of this square.
    pub fn rank(self) -> (r: Rank)
        requires
            self.wf(),
        ensures
            r.index_spec() == self.rank_spec(),
            r == rank_from_index(self.rank_spec()),
    {
        let r = Rank::try_index((self.0 >> 3) as usize);
        proof {
            let x = self.0;
            assert(x >> 3 == x / 8) by (bit_vector);
        }
        r.unwrap()
    }

    /// The square's index as a machine integer.
    pub fn index(self) -> (r: u8)
        ensures
            r == self.idx(),
    {
        self.0
    }

    /// Get a bitboard with this square set.
    pub fn bitboard(self) -> (r: BitBoard)
        requires
            self.wf(),
        ensures
            r.0 == 1u64 << (self.idx() as u64),
            forall|t: Square| t.wf() ==> (#[trigger] r.contains_spec(t) <==> t == self),
    {
        proof {
            lemma_bit_single(self.0 as u64);
        }
        BitBoard(1u64 << (self.0 as u64))
    }

    /// Offsets the square; the offset must stay on the board.
    pub fn offset(self, file_offset: i8, rank_offset: i8) -> (r: Square)
        requires
            self.wf(),
            0 <= self.file_spec() + file_offset < 8,
            0 <= self.rank_spec() + rank_offset < 8,
        ensures
            r.wf(),
            r.file_spec() == self.file_spec() + file_offset,
            r.rank_spec() == self.rank_spec() + rank_offset,
    {
        self.try_offset(file_offset, rank_offset).unwrap()
    }

    /// Offsets the square, absent when the step would leave the board.
    /// The step never wraps around an edge.
    pub fn try_offset(self, file_offset: i8, rank_offset: i8) -> (r: Option<Square>)
        requires
            self.wf(),
        ensures
            r is Some <==> (0 <= self.file_spec() + file_offset < 8 && 0 <= self.rank_spec()
                + rank_offset < 8),
            r matches Some(t) ==> t.wf() && t.file_spec() == self.file_spec() + file_offset
                && t.rank_spec() == self.rank_spec() + rank_offset,
    {
        let nf: i16 = (self.0 & 0b000111) as i16 + file_offset as i16;
        let nr: i16 = (self.0 >> 3) as i16 + rank_offset as i16;
        proof {
            let x = self.0;
            assert(x & 7 == x % 8) by (bit_vector);
            assert(x >> 3 == x / 8) by (bit_vector);
        }
        if 0 <= nf && nf < 8 && 0 <= nr && nr < 8 {
            Some(Square((nr * 8 + nf) as u8))
        } else {
            None
        }
    }

    /// The square with the mirrored file.
    pub open spec fn flip_file_spec(self) -> Square {
        Square(self.0 ^ 0b000111)
    }

    /// The square with the mirrored rank.
    pub open spec fn flip_rank_spec(self) -> Square {
        Square(self.0 ^ 0b111000)
    }

    /// Flip the file of this square: mirror across the board's vertical axis.
    pub fn flip_file(self) -> (r: Square)
        requires
            self.wf(),
        ensures
            r == self.flip_file_spec(),
            r.wf(),
            r.file_spec() == 7 - self.file_spec(),
            r.rank_spec() == self.rank_spec(),
    {
        proof {
            let x = self.0;
            assert(x < 64 ==> (x ^ 0b000111) < 64 && (x ^ 0b000111) % 8 == 7 - x % 8 && (x
                ^ 0b000111) / 8 == x / 8) by (bit_vector);
        }
        Square(self.0 ^ 0b000111)
    }

    /// Flip the rank of this square: mirror across the board's horizontal axis.
    pub fn flip_rank(self) -> (r: Square)
        requires
            self.wf(),
        ensures
            r == self.flip_rank_spec(),
            r.wf(),
            r.file_spec() == self.file_spec(),
            r.rank_spec() == 7 - self.rank_spec(),
    {
        proof {
            let x = self.0;
            assert(x < 64 ==> (x ^ 0b111000) < 64 && (x ^ 0b111000) % 8 == x % 8 && (x
                ^ 0b111000) / 8 == 7 - x / 8) by (bit_vector);
        }
        Square(self.0 ^ 0b111000)
    }
}

/// Flipping a square's file twice gives the square back, and likewise its rank.
pub proof fn lemma_flip_involution(s: Square)
    ensures
        s.flip_file_spec().flip_file_spec() == s,
        s.flip_rank_spec().flip_rank_spec() == s,
{
    let x = s.0;
    assert(((x ^ 0b000111) ^ 0b000111) == x) by (bit_vector);
    assert(((x ^ 0b111000) ^ 0b111000) == x) by (bit_vector);
}

/// The file named by a lowercase letter `'a'` through `'h'`.
pub open spec fn file_of_char(c: char) -> Option<File> {
    if c == 'a' {
        Some(File::A)
    } else if c == 'b' {
        Some(File::B)
    } else if c == 'c' {
        Some(File::C)
    } else if c == 'd' {
        Some(File::D)
    } else if c == 'e' {
        Some(File::E)
    } else if c == 'f' {
        Some(File::F)
    } else if c == 'g' {
        Some(File::G)
    } else if c == 'h' {
        Some(File::H)
    } else {
        None
    }
}

/// The rank named by a digit `'1'` through `'8'`.
pub open spec fn rank_of_char(c: char) -> Option<Rank> {
    if c == '1' {
        Some(Rank::First)
    } else if c == '2' {
        Some(Rank::Second)
    } else if c == '3' {
        Some(Rank::Third)
    } else if c == '4' {
        Some(Rank::Fourth)
    } else if c == '5' {
        Some(Rank::Fifth)
    } else if c == '6' {
        Some(Rank::Sixth)
    } else if c == '7' {
        Some(Rank::Seventh)
    } else if c == '8' {
        Some(Rank::Eighth)
    } else {
        None
    }
}

/// What a well-formed square name means: exactly a file letter then a rank
/// digit.
pub open spec fn parse_square_spec(s: Seq<char>) -> Option<Square> {
    if s.len() == 2 && file_of_char(s[0]) is Some && rank_of_char(s[1]) is Some {
        Some(
            Square(
                (rank_of_char(s[1])->Some_0.index_spec() * 8 + file_of_char(
                    s[0],
                )->Some_0.index_spec()) as u8,
            ),
        )
    } else {
        None
    }
}

impl Square {
    /// Parse a square name such as a file letter followed by a rank digit;
    /// anything else is an invalid square.
    pub fn from_str(s: &str) -> (r: Result<Square, SquareParseError>)
        ensures
            r == (match parse_square_spec(s@) {
                Some(sq) => Ok::<Square, SquareParseError>(sq),
                None => Err::<Square, SquareParseError>(SquareParseError::InvalidSquare),
            }),
            r matches Ok(sq) ==> sq.wf(),
    {
        let n = s.unicode_len();
        if n != 2 {
            return Err(SquareParseError::InvalidSquare);
        }
        let c0 = s.get_char(0);
        let c1 = s.get_char(1);
        let file = match c0 {
            'a' => File::A,
            'b' => File::B,
            'c' => File::C,
            'd' => File::D,
            'e' => File::E,
            'f' => File::F,
            'g' => File::G,
            'h' => File::H,
            _ => {
                return Err(SquareParseError::InvalidSquare);
            },
        };
        let rank = match c1 {
            '1' => Rank::First,
            '2' => Rank::Second,
            '3' => Rank::Third,
            '4' => Rank::Fourth,
            '5' => Rank::Fifth,
            '6' => Rank::Sixth,
            '7' => Rank::Seventh,
            '8' => Rank::Eighth,
            _ => {
                return Err(SquareParseError::InvalidSquare);
            },
        };
        Ok(Square::new(file, rank))
    }

    /// The square's name: its file letter then its rank digit. Parsing the
    /// name gives the square back.
    pub fn name(self) -> (r: String)
        requires
            self.wf(),
        ensures
            r@.len() == 2,
            parse_square_spec(r@) == Some(self),
    {
        let fs: &str = match self.file() {
            File::A => {
                proof {
                    reveal_strlit("a");
                }
                "a"
            },
            File::B => {
                proof {
                    reveal_strlit("b");
                }
                "b"
            },
            File::C => {
                proof {
                    reveal_strlit("c");
                }
                "c"
            },
            File::D => {
                proof {
                    reveal_strlit("d");
                }
                "d"
            },
            File::E => {
                proof {
                    reveal_strlit("e");
                }
                "e"
            },
            File::F => {
                proof {
                    reveal_strlit("f");
                }
                "f"
            },
            File::G => {
                proof {
                    reveal_strlit("g");
                }
                "g"
            },
            File::H => {
                proof {
                    reveal_strlit("h");
                }
                "h"
            },
        };
        let rs: &str = match self.rank() {
            Rank::First => {
                proof {
                    reveal_strlit("1");
                }
                "1"
            },
            Rank::Second => {
                proof {
                    reveal_strlit("2");
                }
                "2"
            },
            Rank::Third => {
                proof {
                    reveal_strlit("3");
                }
                "3"
            },
            Rank::Fourth => {
                proof {
                    reveal_strlit("4");
                }
                "4"
            },
            Rank::Fifth => {
                proof {
                    reveal_strlit("5");
                }
                "5"
            },
            Rank::Sixth => {
                proof {
                    reveal_strlit("6");
                }
                "6"
            },
            Rank::Seventh => {
                proof {
                    reveal_strlit("7");
                }
                "7"
            },
            Rank::Eighth => {
                proof {
                    reveal_strlit("8");
                }
                "8"
            },
        };
        let out = String::from_str(fs).concat(rs);
        proof {
            assert(out@[0] == fs@[0]);
            assert(out@[1] == rs@[0]);
        }
        out
    }
}

} // verus!
