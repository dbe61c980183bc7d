use vstd::prelude::*;
use crate::square::Square;
use crate::color::Color;
use crate::bitboard::BitBoard;
use crate::bitboard::bit64;
use crate::bitboard::lemma_bit_or;
use crate::bitboard::lemma_bit_and;
use crate::bitboard::lemma_bit_xor;
use crate::bitboard::lemma_bit_not;
use crate::bitboard::lemma_bit_single;

verus! {

/// The coordinates name a real board square.
pub open spec fn in_bounds(f: int, r: int) -> bool {
    0 <= f < 8 && 0 <= r < 8
}

/// Index of the square on file `f` and rank `r`.
pub open spec fn coord_idx(f: int, r: int) -> int {
    r * 8 + f
}

/// A single step of a sliding direction: each coordinate moves by at most
/// one, and at least one of them moves.
pub open spec fn unit_delta(df: int, dr: int) -> bool {
    -1 <= df <= 1 && -1 <= dr <= 1 && !(df == 0 && dr == 0)
}

/// Whether the square `k` steps from `s` along `(df, dr)` is occupied in `b`.
pub open spec fn ray_occ(b: u64, s: Square, df: int, dr: int, k: int) -> bool {
    bit64(b, coord_idx(s.file_spec() + k * df, s.rank_spec() + k * dr))
}

/// Target `t` lies exactly `k` steps from `s` along `(df, dr)`.
pub open spec fn ray_hits(s: Square, df: int, dr: int, k: int, t: Square) -> bool {
    t.file_spec() == s.file_spec() + k * df && t.rank_spec() == s.rank_spec() + k * dr
}

/// No blocker strictly between `s` and the square `k` steps out.
pub open spec fn ray_clear(b: u64, s: Square, df: int, dr: int, k: int) -> bool {
    forall|j: int| 1 <= j < k ==> !#[trigger] ray_occ(b, s, df, dr, j)
}

/// A sliding piece on `s` reaches `t` along `(df, dr)` against blockers `b`:
/// `t` lies some positive number of steps out and every strictly intermediate
/// square is free. The first occupied square is itself reached, and ends the ray.
pub open spec fn slides_to(b: u64, s: Square, df: int, dr: int, t: Square) -> bool {
    exists|k: int| 1 <= k && #[trigger] ray_hits(s, df, dr, k, t) && ray_clear(b, s, df, dr, k)
}

/// Multiplying by a factor drawn from `{-1, 0, 1}` only copies, negates or
/// cancels the other factor.
pub proof fn lemma_unit_mult(k: int, d: int)
    ensures
        d == 1 ==> k * d == k,
        d == -1 ==> k * d == -k,
        d == 0 ==> k * d == 0,
{
    assert(k * 1 == k) by (nonlinear_arith);
    assert(k * -1 == -k) by (nonlinear_arith);
    assert(k * 0 == 0) by (nonlinear_arith);
}

/// A square's index decomposes into its rank and file.
pub proof fn lemma_idx_decomp(t: Square)
    ensures
        t.idx() == coord_idx(t.file_spec(), t.rank_spec()),
{
}

/// Distinct well-formed squares have distinct coordinates, and conversely.
pub proof fn lemma_coords_determine(a: Square, b: Square)
    requires
        a.wf(),
        b.wf(),
    ensures
        (a == b) <==> (a.file_spec() == b.file_spec() && a.rank_spec() == b.rank_spec()),
{
    if a.file_spec() == b.file_spec() && a.rank_spec() == b.rank_spec() {
        assert(a.idx() == coord_idx(a.file_spec(), a.rank_spec()));
        assert(b.idx() == coord_idx(b.file_spec(), b.rank_spec()));
        assert(a.0 == b.0);
    }
}

/// Walk one sliding direction from `square`, accumulating reached squares into `acc`.
fn walk_dir(acc: u64, square: Square, blockers: BitBoard, df: i8, dr: i8) -> (r: u64)
    requires
        square.wf(),
        unit_delta(df as int, dr as int),
    ensures
        forall|t: Square| t.wf() ==> (#[trigger] bit64(r, t.idx()) <==> bit64(acc, t.idx())
            || slides_to(blockers.0, square, df as int, dr as int, t)),
{
    let own = square.bitboard();
    let blk: u64 = blockers.0 & !own.0;
    proof {
        lemma_bit_not(own.0);
        lemma_bit_and(blockers.0, !own.0);
        lemma_bit_single(square.0 as u64);
    }
    let ghost dfi: int = df as int;
    let ghost dri: int = dr as int;
    let mut cur = square;
    let mut out: u64 = acc;
    let ghost mut k: int = 0;
    loop
        invariant
            square.wf(),
            cur.wf(),
            unit_delta(dfi, dri),
            dfi == df as int,
            dri == dr as int,
            0 <= k <= 7,
            cur.file_spec() == square.file_spec() + k * dfi,
            cur.rank_spec() == square.rank_spec() + k * dri,
            ray_clear(blockers.0, square, dfi, dri, k),
            blk == blockers.0 & !own.0,
            own.0 == 1u64 << (square.0 as u64),
            forall|i: int| #[trigger] bit64(blk, i) <==> bit64(blockers.0, i) && i != square.idx(),
            forall|t: Square| t.wf() ==> (#[trigger] bit64(out, t.idx()) <==> bit64(acc, t.idx())
                || exists|k2: int| 1 <= k2 <= k && #[trigger] ray_hits(square, dfi, dri, k2, t)),
        decreases 8 - k,
    {
        if (blk >> (cur.index() as u64)) & 1u64 == 1u64 {
            // The current square is occupied: the ray ends here, and the
            // squares past it are unreachable.
            proof {
                lemma_unit_mult(k, dfi);
                assert(k >= 1) by {
                    if k == 0 {
                        assert(cur.file_spec() == square.file_spec());
                        assert(cur.rank_spec() == square.rank_spec());
                        lemma_coords_determine(cur, square);
                        assert(bit64(blk, square.idx()));
                        assert(false);
                    }
                };
                lemma_idx_decomp(cur);
                assert(bit64(blk, cur.idx())) by {
                    assert((blk >> (cur.idx() as u64)) & 1u64 == 1u64);
                };
                assert(bit64(blockers.0, cur.idx()));
                assert(ray_occ(blockers.0, square, dfi, dri, k));
                assert forall|t: Square|
                    t.wf() && slides_to(blockers.0, square, dfi, dri, t) implies exists|k2: int|
                    1 <= k2 <= k && #[trigger] ray_hits(square, dfi, dri, k2, t) by {
                    let k3 = choose|k3: int|
                        1 <= k3 && #[trigger] ray_hits(square, dfi, dri, k3, t) && ray_clear(
                            blockers.0,
                            square,
                            dfi,
                            dri,
                            k3,
                        );
                    if k3 > k {
                        assert(ray_occ(blockers.0, square, dfi, dri, k));
                        assert(false);
                    }
                    assert(ray_hits(square, dfi, dri, k3, t));
                }
            }
            return out;
        }
        let next = cur.try_offset(df, dr);
        match next {
            Some(n) => {
                proof {
                    lemma_unit_mult(k, dfi);
                    lemma_unit_mult(k + 1, dfi);
                    lemma_unit_mult(k, dri);
                    lemma_unit_mult(k + 1, dri);
                    lemma_bit_or(out, 1u64 << (n.0 as u64));
                    lemma_bit_single(n.0 as u64);
                    lemma_idx_decomp(cur);
                    // The new step count stays within the board's width.
                    assert(k + 1 <= 7) by {
                        if dfi == 1 {
                            assert(n.file_spec() == square.file_spec() + (k + 1));
                        } else if dfi == -1 {
                            assert(n.file_spec() == square.file_spec() - (k + 1));
                        } else if dri == 1 {
                            assert(n.rank_spec() == square.rank_spec() + (k + 1));
                        } else {
                            assert(n.rank_spec() == square.rank_spec() - (k + 1));
                        }
                    };
                }
                let ghost old_out = out;
                out = out | (1u64 << (n.index() as u64));
                proof {
                    // The square just stepped onto is `k + 1` steps out, and the
                    // path to it is clear because the walk has not met a blocker.
                    assert(!bit64(blockers.0, cur.idx()) || cur == square) by {
                        if cur != square {
                            assert(bit64(blk, cur.idx()) == bit64(blockers.0, cur.idx()));
                        }
                    };
                    assert(ray_clear(blockers.0, square, dfi, dri, k + 1)) by {
                        if k >= 1 {
                            lemma_coords_determine(cur, square);
                            assert(cur != square) by {
                                if dfi != 0 {
                                    lemma_unit_mult(k, dfi);
                                    assert(cur.file_spec() != square.file_spec());
                                } else {
                                    lemma_unit_mult(k, dri);
                                    assert(cur.rank_spec() != square.rank_spec());
                                }
                            };
                            assert(!ray_occ(blockers.0, square, dfi, dri, k));
                        }
                    };
                    assert(ray_hits(square, dfi, dri, k + 1, n));
                    assert forall|t: Square| t.wf() implies (#[trigger] bit64(out, t.idx())
                        <==> bit64(acc, t.idx()) || exists|k2: int|
                        1 <= k2 <= k + 1 && #[trigger] ray_hits(square, dfi, dri, k2, t)) by {
                        lemma_coords_determine(t, n);
                        if bit64(out, t.idx()) {
                            if t.idx() == n.idx() {
                                assert(t == n) by {
                                    lemma_coords_determine(t, n);
                                    lemma_idx_decomp(t);
                                    lemma_idx_decomp(n);
                                };
                                assert(ray_hits(square, dfi, dri, k + 1, t));
                            } else {
                                assert(bit64(old_out, t.idx()));
                            }
                        } else {
                            assert(!bit64(old_out, t.idx()));
                            if exists|k2: int|
                                1 <= k2 <= k + 1 && #[trigger] ray_hits(square, dfi, dri, k2, t) {
                                let k2 = choose|k2: int|
                                    1 <= k2 <= k + 1 && #[trigger] ray_hits(
                                        square,
                                        dfi,
                                        dri,
                                        k2,
                                        t,
                                    );
                                if k2 == k + 1 {
                                    lemma_unit_mult(k2, dfi);
                                    lemma_unit_mult(k2, dri);
                                    lemma_coords_determine(t, n);
                                    lemma_idx_decomp(t);
                                    lemma_idx_decomp(n);
                                    assert(bit64(out, t.idx()));
                                    assert(false);
                                } else {
                                    assert(1 <= k2 <= k);
                                    assert(false);
                                }
                            }
                        }
                    }
                }
                cur = n;
                proof {
                    k = k + 1;
                }
            },
            None => {
                // The next step leaves the board: every farther square along
                // this ray is off the board too.
                proof {
                    assert forall|t: Square|
                        t.wf() && slides_to(blockers.0, square, dfi, dri, t) implies exists|
                        k2: int,
                    |
                        1 <= k2 <= k && #[trigger] ray_hits(square, dfi, dri, k2, t) by {
                        let k3 = choose|k3: int|
                            1 <= k3 && #[trigger] ray_hits(square, dfi, dri, k3, t) && ray_clear(
                                blockers.0,
                                square,
                                dfi,
                                dri,
                                k3,
                            );
                        if k3 > k {
                            lemma_unit_mult(k, dfi);
                            lemma_unit_mult(k + 1, dfi);
                            lemma_unit_mult(k3, dfi);
                            lemma_unit_mult(k, dri);
                            lemma_unit_mult(k + 1, dri);
                            lemma_unit_mult(k3, dri);
                            // The step to `k + 1` left the board, so the file or
                            // rank coordinate is already out of range there and
                            // stays out of range at `k3`.
                            if dfi == 1 {
                                assert(square.file_spec() + (k + 1) >= 8 || square.rank_spec() + (k
                                    + 1) * dri < 0 || square.rank_spec() + (k + 1) * dri >= 8);
                                if square.file_spec() + (k + 1) >= 8 {
                                    assert(t.file_spec() >= 8);
                                } else if dri == 1 {
                                    assert(t.rank_spec() >= 8);
                                } else if dri == -1 {
                                    assert(t.rank_spec() < 0);
                                }
                            } else if dfi == -1 {
                                if square.file_spec() - (k + 1) < 0 {
                                    assert(t.file_spec() < 0);
                                } else if dri == 1 {
                                    assert(t.rank_spec() >= 8);
                                } else if dri == -1 {
                                    assert(t.rank_spec() < 0);
                                }
                            } else {
                                if dri == 1 {
                                    assert(t.rank_spec() >= 8);
                                } else {
                                    assert(t.rank_spec() < 0);
                                }
                            }
                            assert(false);
                        }
                        assert(ray_hits(square, dfi, dri, k3, t));
                    }
                }
                return out;
            },
        }
    }
}

/// Reachable squares for a sliding piece on `square` along the four directions
/// in `deltas`, stopping at (and including) the first blocker in each direction.
/// The piece's own square never blocks its rays.
pub fn sliding_moves(square: Square, blockers: BitBoard, deltas: &[(i8, i8); 4]) -> (r: BitBoard)
    requires
        square.wf(),
        forall|d: int| 0 <= d < 4 ==> unit_delta((#[trigger] deltas@[d]).0 as int, deltas@[d].1 as int),
    ensures
        forall|t: Square| t.wf() ==> (#[trigger] r.contains_spec(t) <==> exists|d: int|
            0 <= d < 4 && slides_to(blockers.0, square, (#[trigger] deltas@[d]).0 as int,
            deltas@[d].1 as int, t)),
{
    let d0 = deltas[0];
    let d1 = deltas[1];
    let d2 = deltas[2];
    let d3 = deltas[3];
    let m0 = walk_dir(0u64, square, blockers, d0.0, d0.1);
    let m1 = walk_dir(m0, square, blockers, d1.0, d1.1);
    let m2 = walk_dir(m1, square, blockers, d2.0, d2.1);
    let m3 = walk_dir(m2, square, blockers, d3.0, d3.1);
    proof {
        assert(forall|i: int| !bit64(0u64, i)) by {
            crate::bitboard::lemma_bit_zero();
        };
        assert forall|t: Square| t.wf() implies (#[trigger] bit64(m3, t.idx()) <==> exists|d: int|
            0 <= d < 4 && slides_to(blockers.0, square, (#[trigger] deltas@[d]).0 as int,
            deltas@[d].1 as int, t)) by {
            if bit64(m3, t.idx()) {
                if slides_to(blockers.0, square, d3.0 as int, d3.1 as int, t) {
                    assert(deltas@[3] == d3);
                } else if slides_to(blockers.0, square, d2.0 as int, d2.1 as int, t) {
                    assert(deltas@[2] == d2);
                } else if slides_to(blockers.0, square, d1.0 as int, d1.1 as int, t) {
                    assert(deltas@[1] == d1);
                } else {
                    assert(deltas@[0] == d0);
                }
            } else {
                assert forall|d: int| 0 <= d < 4 implies !slides_to(blockers.0, square,
                    (#[trigger] deltas@[d]).0 as int, deltas@[d].1 as int, t) by {
                    if d == 0 {
                        assert(deltas@[0] == d0);
                    } else if d == 1 {
                        assert(deltas@[1] == d1);
                    } else if d == 2 {
                        assert(deltas@[2] == d2);
                    } else {
                        assert(deltas@[3] == d3);
                    }
                }
            }
        }
    }
    BitBoard(m3)
}

/// A rook on `s` reaches `t` against blockers `b` along a file or a rank.
pub open spec fn rook_slides(b: u64, s: Square, t: Square) -> bool {
    ||| slides_to(b, s, 1, 0, t)
    ||| slides_to(b, s, 0, -1, t)
    ||| slides_to(b, s, -1, 0, t)
    ||| slides_to(b, s, 0, 1, t)
}

/// A bishop on `s` reaches `t` against blockers `b` along a diagonal.
pub open spec fn bishop_slides(b: u64, s: Square, t: Square) -> bool {
    ||| slides_to(b, s, 1, 1, t)
    ||| slides_to(b, s, 1, -1, t)
    ||| slides_to(b, s, -1, -1, t)
    ||| slides_to(b, s, -1, 1, t)
}

/// Get the moves for a rook on some square.
pub fn get_rook_moves(square: Square, blockers: BitBoard) -> (r: BitBoard)
    requires
        square.wf(),
    ensures
        forall|t: Square| t.wf() ==> (#[trigger] r.contains_spec(t) <==> rook_slides(
            blockers.0,
            square,
            t,
        )),
{
    let deltas: [(i8, i8); 4] = [(1, 0), (0, -1), (-1, 0), (0, 1)];
    let r = sliding_moves(square, blockers, &deltas);
    proof {
        assert forall|t: Square| t.wf() implies (#[trigger] r.contains_spec(t) <==> rook_slides(
            blockers.0,
            square,
            t,
        )) by {
            assert(deltas@[0] == (1i8, 0i8));
            assert(deltas@[1] == (0i8, -1i8));
            assert(deltas@[2] == (-1i8, 0i8));
            assert(deltas@[3] == (0i8, 1i8));
            if r.contains_spec(t) {
                let d = choose|d: int|
                    0 <= d < 4 && slides_to(blockers.0, square, (#[trigger] deltas@[d]).0 as int,
                    deltas@[d].1 as int, t);
                assert(rook_slides(blockers.0, square, t));
            } else {
                if rook_slides(blockers.0, square, t) {
                    if slides_to(blockers.0, square, 1, 0, t) {
                        assert(0 <= 0 < 4 && slides_to(blockers.0, square,
                            (deltas@[0]).0 as int, deltas@[0].1 as int, t));
                    } else if slides_to(blockers.0, square, 0, -1, t) {
                        assert(0 <= 1 < 4 && slides_to(blockers.0, square,
                            (deltas@[1]).0 as int, deltas@[1].1 as int, t));
                    } else if slides_to(blockers.0, square, -1, 0, t) {
                        assert(0 <= 2 < 4 && slides_to(blockers.0, square,
                            (deltas@[2]).0 as int, deltas@[2].1 as int, t));
                    } else {
                        assert(0 <= 3 < 4 && slides_to(blockers.0, square,
                            (deltas@[3]).0 as int, deltas@[3].1 as int, t));
                    }
                    assert(false);
                }
            }
        }
    }
    r
}

/// Get the moves for a bishop on some square.
pub fn get_bishop_moves(square: Square, blockers: BitBoard) -> (r: BitBoard)
    requires
        square.wf(),
    ensures
        forall|t: Square| t.wf() ==> (#[trigger] r.contains_spec(t) <==> bishop_slides(
            blockers.0,
            square,
            t,
        )),
{
    let deltas: [(i8, i8); 4] = [(1, 1), (1, -1), (-1, -1), (-1, 1)];
    let r = sliding_moves(square, blockers, &deltas);
    proof {
        assert forall|t: Square| t.wf() implies (#[trigger] r.contains_spec(t) <==> bishop_slides(
            blockers.0,
            square,
            t,
        )) by {
            assert(deltas@[0] == (1i8, 1i8));
            assert(deltas@[1] == (1i8, -1i8));
            assert(deltas@[2] == (-1i8, -1i8));
            assert(deltas@[3] == (-1i8, 1i8));
            if r.contains_spec(t) {
                let d = choose|d: int|
                    0 <= d < 4 && slides_to(blockers.0, square, (#[trigger] deltas@[d]).0 as int,
                    deltas@[d].1 as int, t);
                assert(bishop_slides(blockers.0, square, t));
            } else {
                if bishop_slides(blockers.0, square, t) {
                    if slides_to(blockers.0, square, 1, 1, t) {
                        assert(0 <= 0 < 4 && slides_to(blockers.0, square,
                            (deltas@[0]).0 as int, deltas@[0].1 as int, t));
                    } else if slides_to(blockers.0, square, 1, -1, t) {
                        assert(0 <= 1 < 4 && slides_to(blockers.0, square,
                            (deltas@[1]).0 as int, deltas@[1].1 as int, t));
                    } else if slides_to(blockers.0, square, -1, -1, t) {
                        assert(0 <= 2 < 4 && slides_to(blockers.0, square,
                            (deltas@[2]).0 as int, deltas@[2].1 as int, t));
                    } else {
                        assert(0 <= 3 < 4 && slides_to(blockers.0, square,
                            (deltas@[3]).0 as int, deltas@[3].1 as int, t));
                    }
                    assert(false);
                }
            }
        }
    }
    r
}

/// `t` shares `s`'s file or rank without being `s`.
pub open spec fn rook_ray_spec(s: Square, t: Square) -> bool {
    t != s && (t.file_spec() == s.file_spec() || t.rank_spec() == s.rank_spec())
}

/// `t` lies on a common diagonal with `s` without being `s`.
pub open spec fn bishop_ray_spec(s: Square, t: Square) -> bool {
    let a = t.file_spec() - s.file_spec();
    let b = t.rank_spec() - s.rank_spec();
    (a == b || a == -b) && t != s
}

/// Get the rays for a rook on some square: every square of its file and its
/// rank, the square itself excluded.
pub fn get_rook_rays(square: Square) -> (r: BitBoard)
    requires
        square.wf(),
    ensures
        forall|t: Square| t.wf() ==> (#[trigger] r.contains_spec(t) <==> rook_ray_spec(square, t)),
{
    let fb = square.file().bitboard();
    let rb = square.rank().bitboard();
    let r = BitBoard(fb.0 ^ rb.0);
    proof {
        lemma_bit_xor(fb.0, rb.0);
        assert forall|t: Square| t.wf() implies (#[trigger] r.contains_spec(t) <==> rook_ray_spec(
            square,
            t,
        )) by {
            lemma_coords_determine(t, square);
            assert(fb.contains_spec(t) <==> t.file_spec() == square.file_spec());
            assert(rb.contains_spec(t) <==> t.rank_spec() == square.rank_spec());
        }
    }
    r
}

/// Get the rays for a bishop on some square: every square of its two
/// diagonals, the square itself excluded.
pub fn get_bishop_rays(square: Square) -> (r: BitBoard)
    requires
        square.wf(),
    ensures
        forall|t: Square| t.wf() ==> (#[trigger] r.contains_spec(t) <==> bishop_ray_spec(
            square,
            t,
        )),
{
    let sf = (square.0 & 7) as i8;
    let sr = (square.0 >> 3) as i8;
    proof {
        let x = square.0;
        assert(x & 7 == x % 8) by (bit_vector);
        assert(x >> 3 == x / 8) by (bit_vector);
    }
    proof {
        crate::bitboard::lemma_bit_zero();
    }
    let mut rays: u64 = 0;
    let mut i: u8 = 0;
    while i < 64
        invariant
            0 <= i <= 64,
            square.wf(),
            sf == square.file_spec(),
            sr == square.rank_spec(),
            forall|t: Square| t.wf() ==> (#[trigger] bit64(rays, t.idx()) <==> t.idx() < i
                && bishop_ray_spec(square, t)),
        decreases 64 - i,
    {
        let tf = (i & 7) as i8;
        let tr = (i >> 3) as i8;
        proof {
            let x = i;
            assert(x & 7 == x % 8) by (bit_vector);
            assert(x >> 3 == x / 8) by (bit_vector);
        }
        let fd = tf - sf;
        let rd = tr - sr;
        let ghost prev = rays;
        if (fd == rd || fd == -rd) && !(fd == 0 && rd == 0) {
            rays = rays | (1u64 << (i as u64));
            proof {
                lemma_bit_or(prev, 1u64 << (i as u64));
                lemma_bit_single(i as u64);
            }
        }
        proof {
            assert forall|t: Square| t.wf() implies (#[trigger] bit64(rays, t.idx()) <==> t.idx()
                < i + 1 && bishop_ray_spec(square, t)) by {
                if t.idx() == i as int {
                    lemma_coords_determine(t, square);
                    assert(t.0 == i);
                }
            }
        }
        i = i + 1;
    }
    BitBoard(rays)
}

/// Add to `acc` the square one `(df, dr)` step from `s`, when that step stays
/// on the board.
fn add_offset(acc: u64, s: Square, df: i8, dr: i8) -> (r: u64)
    requires
        s.wf(),
        -2 <= df <= 2,
        -2 <= dr <= 2,
    ensures
        forall|t: Square| t.wf() ==> (#[trigger] bit64(r, t.idx()) <==> bit64(acc, t.idx()) || (
        t.file_spec() == s.file_spec() + df && t.rank_spec() == s.rank_spec() + dr)),
{
    match s.try_offset(df, dr) {
        Some(n) => {
            proof {
                lemma_bit_or(acc, 1u64 << (n.0 as u64));
                lemma_bit_single(n.0 as u64);
                assert forall|t: Square| t.wf() implies (bit64(acc | (1u64 << (n.0 as u64)),
                    t.idx()) <==> bit64(acc, t.idx()) || (t.file_spec() == s.file_spec() + df
                    && t.rank_spec() == s.rank_spec() + dr)) by {
                    lemma_coords_determine(t, n);
                    lemma_idx_decomp(t);
                    lemma_idx_decomp(n);
                }
            }
            acc | (1u64 << (n.index() as u64))
        },
        None => acc,
    }
}

/// A knight on `s` attacks `t`.
pub open spec fn knight_jump(s: Square, t: Square) -> bool {
    let a = t.file_spec() - s.file_spec();
    let b = t.rank_spec() - s.rank_spec();
    ||| ((a == -1 || a == 1) && (b == -2 || b == 2))
    ||| ((a == -2 || a == 2) && (b == -1 || b == 1))
}

/// A king on `s` attacks `t`.
pub open spec fn king_step(s: Square, t: Square) -> bool {
    let a = t.file_spec() - s.file_spec();
    let b = t.rank_spec() - s.rank_spec();
    -1 <= a <= 1 && -1 <= b <= 1 && !(a == 0 && b == 0)
}

/// A pawn of `color` on `s` attacks `t`.
pub open spec fn pawn_attack(color: Color, s: Square, t: Square) -> bool {
    let a = t.file_spec() - s.file_spec();
    let b = t.rank_spec() - s.rank_spec();
    b == (if color is White {
        1int
    } else {
        -1int
    }) && (a == -1 || a == 1)
}

/// Get the knight moves for a knight on some square.
pub fn get_knight_moves(square: Square) -> (r: BitBoard)
    requires
        square.wf(),
    ensures
        forall|t: Square| t.wf() ==> (#[trigger] r.contains_spec(t) <==> knight_jump(square, t)),
{
    proof {
        crate::bitboard::lemma_bit_zero();
    }
    let m0 = add_offset(0u64, square, -1, 2);
    let m1 = add_offset(m0, square, 1, 2);
    let m2 = add_offset(m1, square, 2, 1);
    let m3 = add_offset(m2, square, 2, -1);
    let m4 = add_offset(m3, square, 1, -2);
    let m5 = add_offset(m4, square, -1, -2);
    let m6 = add_offset(m5, square, -2, -1);
    let m7 = add_offset(m6, square, -2, 1);
    BitBoard(m7)
}

/// Get the king moves for a king on some square.
pub fn get_king_moves(square: Square) -> (r: BitBoard)
    requires
        square.wf(),
    ensures
        forall|t: Square| t.wf() ==> (#[trigger] r.contains_spec(t) <==> king_step(square, t)),
{
    proof {
        crate::bitboard::lemma_bit_zero();
    }
    let m0 = add_offset(0u64, square, 0, 1);
    let m1 = add_offset(m0, square, 1, 1);
    let m2 = add_offset(m1, square, 1, 0);
    let m3 = add_offset(m2, square, 1, -1);
    let m4 = add_offset(m3, square, 0, -1);
    let m5 = add_offset(m4, square, -1, -1);
    let m6 = add_offset(m5, square, -1, 0);
    let m7 = add_offset(m6, square, -1, 1);
    BitBoard(m7)
}

/// Get the pawn attacks for a pawn of some color on some square.
pub fn get_pawn_attacks(square: Square, color: Color) -> (r: BitBoard)
    requires
        square.wf(),
    ensures
        forall|t: Square| t.wf() ==> (#[trigger] r.contains_spec(t) <==> pawn_attack(
            color,
            square,
            t,
        )),
{
    proof {
        crate::bitboard::lemma_bit_zero();
    }
    let dr: i8 = match color {
        Color::White => 1,
        Color::Black => -1,
    };
    let m0 = add_offset(0u64, square, 1, dr);
    let m1 = add_offset(m0, square, -1, dr);
    BitBoard(m1)
}

/// A pawn of `color` on `s` can push to `t` against blockers `b`: a single
/// step forward onto a free square, or a double step from the color's second
/// rank when both squares ahead are free.
pub open spec fn pawn_quiet(b: u64, color: Color, s: Square, t: Square) -> bool {
    let dir = if color is White {
        1int
    } else {
        -1int
    };
    let start = if color is White {
        1int
    } else {
        6int
    };
    &&& t.file_spec() == s.file_spec()
    &&& !bit64(b, t.idx())
    &&& {
        ||| t.rank_spec() == s.rank_spec() + dir
        ||| (t.rank_spec() == s.rank_spec() + 2 * dir && s.rank_spec() == start && !bit64(
            b,
            coord_idx(s.file_spec(), s.rank_spec() + dir),
        ))
    }
}

/// Get the pawn forward moves/non-captures for a pawn of some color on some
/// square. A piece on the square directly ahead blocks the double step too.
pub fn get_pawn_quiets(square: Square, color: Color, blockers: BitBoard) -> (r: BitBoard)
    requires
        square.wf(),
    ensures
        forall|t: Square| t.wf() ==> (#[trigger] r.contains_spec(t) <==> pawn_quiet(
            blockers.0,
            color,
            square,
            t,
        )),
{
    proof {
        crate::bitboard::lemma_bit_zero();
    }
    let dir: i8 = match color {
        Color::White => 1,
        Color::Black => -1,
    };
    let start: u8 = match color {
        Color::White => 1,
        Color::Black => 6,
    };
    let one_opt = square.try_offset(0, dir);
    match one_opt {
        None => BitBoard(0),
        Some(one) => {
            if blockers.has(one) {
                proof {
                    assert forall|t: Square|
                        t.wf() && pawn_quiet(blockers.0, color, square, t) implies false by {
                        lemma_coords_determine(t, one);
                        lemma_idx_decomp(t);
                        lemma_idx_decomp(one);
                    }
                }
                return BitBoard(0);
            }
            let m1: u64 = 1u64 << (one.index() as u64);
            proof {
                lemma_bit_single(one.0 as u64);
                lemma_idx_decomp(one);
            }
            let on_start = square.index() >> 3 == start;
            proof {
                let x = square.0;
                assert(x >> 3 == x / 8) by (bit_vector);
            }
            if !on_start {
                proof {
                    assert forall|t: Square| t.wf() implies (#[trigger] bit64(m1, t.idx())
                        <==> pawn_quiet(blockers.0, color, square, t)) by {
                        lemma_coords_determine(t, one);
                        lemma_idx_decomp(t);
                    }
                }
                return BitBoard(m1);
            }
            let two_opt = one.try_offset(0, dir);
            match two_opt {
                None => {
                    proof {
                        assert forall|t: Square| t.wf() implies (#[trigger] bit64(m1, t.idx())
                            <==> pawn_quiet(blockers.0, color, square, t)) by {
                            lemma_coords_determine(t, one);
                            lemma_idx_decomp(t);
                        }
                    }
                    BitBoard(m1)
                },
                Some(two) => {
                    if blockers.has(two) {
                        proof {
                            assert forall|t: Square| t.wf() implies (#[trigger] bit64(m1, t.idx())
                                <==> pawn_quiet(blockers.0, color, square, t)) by {
                                lemma_coords_determine(t, one);
                                lemma_coords_determine(t, two);
                                lemma_idx_decomp(t);
                                lemma_idx_decomp(two);
                            }
                        }
                        BitBoard(m1)
                    } else {
                        let m2: u64 = m1 | (1u64 << (two.index() as u64));
                        proof {
                            lemma_bit_or(m1, 1u64 << (two.0 as u64));
                            lemma_bit_single(two.0 as u64);
                            lemma_idx_decomp(two);
                            assert forall|t: Square| t.wf() implies (#[trigger] bit64(m2, t.idx())
                                <==> pawn_quiet(blockers.0, color, square, t)) by {
                                lemma_coords_determine(t, one);
                                lemma_coords_determine(t, two);
                                lemma_idx_decomp(t);
                            }
                        }
                        BitBoard(m2)
                    }
                },
            }
        },
    }
}

/// `t` lies on the one straight or diagonal line through both `a` and `b`,
/// endpoints included; no square qualifies when no such line exists.
pub open spec fn line_spec(a: Square, b: Square, t: Square) -> bool {
    let p = b.file_spec() - a.file_spec();
    let q = b.rank_spec() - a.rank_spec();
    let u = t.file_spec() - a.file_spec();
    let v = t.rank_spec() - a.rank_spec();
    if p == 0 && q == 0 {
        false
    } else if p == q {
        u == v
    } else if p == -q {
        u == -v
    } else if p == 0 {
        u == 0
    } else if q == 0 {
        v == 0
    } else {
        false
    }
}

/// `t` lies strictly between `a` and `b` on a shared rank, file or diagonal.
pub open spec fn between_spec(a: Square, b: Square, t: Square) -> bool {
    let p = b.file_spec() - a.file_spec();
    let q = b.rank_spec() - a.rank_spec();
    let u = t.file_spec() - a.file_spec();
    let v = t.rank_spec() - a.rank_spec();
    if p == 0 && q == 0 {
        false
    } else if p == q {
        u == v && (0 < u < p || p < u < 0)
    } else if p == -q {
        u == -v && (0 < u < p || p < u < 0)
    } else if p == 0 {
        u == 0 && (0 < v < q || q < v < 0)
    } else if q == 0 {
        v == 0 && (0 < u < p || p < u < 0)
    } else {
        false
    }
}

/// Unpack a sliding-reachability witness into its step count.
proof fn lemma_slides_steps(b0: u64, s: Square, df: int, dr: int, t: Square) -> (k: int)
    requires
        slides_to(b0, s, df, dr, t),
    ensures
        1 <= k,
        ray_hits(s, df, dr, k, t),
        ray_clear(b0, s, df, dr, k),
        t.file_spec() - s.file_spec() == k * df,
        t.rank_spec() - s.rank_spec() == k * dr,
{
    let k = choose|k: int|
        1 <= k && #[trigger] ray_hits(s, df, dr, k, t) && ray_clear(b0, s, df, dr, k);
    k
}

/// Package a step count and a clear path back into sliding reachability.
proof fn lemma_slides_intro(b0: u64, s: Square, df: int, dr: int, t: Square, k: int)
    requires
        1 <= k,
        ray_hits(s, df, dr, k, t),
        ray_clear(b0, s, df, dr, k),
    ensures
        slides_to(b0, s, df, dr, t),
{
}

/// The exclusive-or of two distinct squares' bitboards holds exactly those
/// two squares' bits.
proof fn lemma_two_bits(a: Square, b: Square)
    requires
        a.wf(),
        b.wf(),
        a != b,
    ensures
        forall|i: int| #[trigger] bit64((1u64 << (a.0 as u64)) ^ (1u64 << (b.0 as u64)), i) <==> (i
            == a.idx() || i == b.idx()),
{
    lemma_bit_single(a.0 as u64);
    lemma_bit_single(b.0 as u64);
    lemma_bit_xor(1u64 << (a.0 as u64), 1u64 << (b.0 as u64));
}

/// On a board whose only occupied squares are `a` and `b`, a bishop on `a`
/// reaches `b` exactly when the two squares share a diagonal.
proof fn lemma_diag_reach(b0: u64, a: Square, b: Square)
    requires
        a.wf(),
        b.wf(),
        forall|i: int| #[trigger] bit64(b0, i) ==> (i == a.idx() || i == b.idx()),
    ensures
        bishop_slides(b0, a, b) <==> bishop_ray_spec(a, b),
{
    let p = b.file_spec() - a.file_spec();
    let q = b.rank_spec() - a.rank_spec();
    if bishop_slides(b0, a, b) {
        if slides_to(b0, a, 1, 1, b) {
            let k = lemma_slides_steps(b0, a, 1, 1, b);
            lemma_unit_mult(k, 1);
            lemma_coords_determine(a, b);
        } else if slides_to(b0, a, 1, -1, b) {
            let k = lemma_slides_steps(b0, a, 1, -1, b);
            lemma_unit_mult(k, 1);
            lemma_unit_mult(k, -1);
            lemma_coords_determine(a, b);
        } else if slides_to(b0, a, -1, -1, b) {
            let k = lemma_slides_steps(b0, a, -1, -1, b);
            lemma_unit_mult(k, -1);
            lemma_coords_determine(a, b);
        } else {
            let k = lemma_slides_steps(b0, a, -1, 1, b);
            lemma_unit_mult(k, 1);
            lemma_unit_mult(k, -1);
            lemma_coords_determine(a, b);
        }
    }
    if bishop_ray_spec(a, b) {
        lemma_coords_determine(a, b);
        let df: int = if p > 0 {
            1
        } else {
            -1
        };
        let dr: int = if q > 0 {
            1
        } else {
            -1
        };
        let k = if p > 0 {
            p
        } else {
            -p
        };
        lemma_unit_mult(k, df);
        lemma_unit_mult(k, dr);
        assert(ray_hits(a, df, dr, k, b));
        assert forall|j: int| 1 <= j < k implies !#[trigger] ray_occ(b0, a, df, dr, j) by {
            lemma_unit_mult(j, df);
            lemma_unit_mult(j, dr);
            let jf = a.file_spec() + j * df;
            let jr = a.rank_spec() + j * dr;
            assert(in_bounds(jf, jr));
            assert(coord_idx(jf, jr) != a.idx()) by {
                lemma_idx_decomp(a);
            };
            assert(coord_idx(jf, jr) != b.idx()) by {
                lemma_idx_decomp(b);
            };
        }
        lemma_slides_intro(b0, a, df, dr, b, k);
    }
}

/// On a board whose only occupied squares are `a` and `b`, a rook on `a`
/// reaches `b` exactly when the two squares share a file or a rank.
proof fn lemma_rook_reach(b0: u64, a: Square, b: Square)
    requires
        a.wf(),
        b.wf(),
        forall|i: int| #[trigger] bit64(b0, i) ==> (i == a.idx() || i == b.idx()),
    ensures
        rook_slides(b0, a, b) <==> rook_ray_spec(a, b),
{
    let p = b.file_spec() - a.file_spec();
    let q = b.rank_spec() - a.rank_spec();
    if rook_slides(b0, a, b) {
        if slides_to(b0, a, 1, 0, b) {
            let k = lemma_slides_steps(b0, a, 1, 0, b);
            lemma_unit_mult(k, 1);
            lemma_unit_mult(k, 0);
            lemma_coords_determine(a, b);
        } else if slides_to(b0, a, 0, -1, b) {
            let k = lemma_slides_steps(b0, a, 0, -1, b);
            lemma_unit_mult(k, -1);
            lemma_unit_mult(k, 0);
            lemma_coords_determine(a, b);
        } else if slides_to(b0, a, -1, 0, b) {
            let k = lemma_slides_steps(b0, a, -1, 0, b);
            lemma_unit_mult(k, -1);
            lemma_unit_mult(k, 0);
            lemma_coords_determine(a, b);
        } else {
            let k = lemma_slides_steps(b0, a, 0, 1, b);
            lemma_unit_mult(k, 1);
            lemma_unit_mult(k, 0);
            lemma_coords_determine(a, b);
        }
    }
    if rook_ray_spec(a, b) {
        lemma_coords_determine(a, b);
        let df: int = if p > 0 {
            1
        } else if p < 0 {
            -1
        } else {
            0
        };
        let dr: int = if p != 0 {
            0
        } else if q > 0 {
            1
        } else {
            -1
        };
        let k = if p > 0 {
            p
        } else if p < 0 {
            -p
        } else if q > 0 {
            q
        } else {
            -q
        };
        lemma_unit_mult(k, df);
        lemma_unit_mult(k, dr);
        assert(ray_hits(a, df, dr, k, b));
        assert forall|j: int| 1 <= j < k implies !#[trigger] ray_occ(b0, a, df, dr, j) by {
            lemma_unit_mult(j, df);
            lemma_unit_mult(j, dr);
            let jf = a.file_spec() + j * df;
            let jr = a.rank_spec() + j * dr;
            assert(in_bounds(jf, jr));
            assert(coord_idx(jf, jr) != a.idx()) by {
                lemma_idx_decomp(a);
            };
            assert(coord_idx(jf, jr) != b.idx()) by {
                lemma_idx_decomp(b);
            };
        }
        lemma_slides_intro(b0, a, df, dr, b, k);
    }
}

/// Get a ray on the board that passes through both squares, if it exists.
/// The ray includes both endpoints; two squares off any common line, or one
/// square given twice, yield the empty set.
pub fn get_line_rays(from: Square, to: Square) -> (r: BitBoard)
    requires
        from.wf(),
        to.wf(),
    ensures
        forall|t: Square| t.wf() ==> (#[trigger] r.contains_spec(t) <==> line_spec(from, to, t)),
{
    let fb = from.bitboard();
    let tb = to.bitboard();
    let rays = get_bishop_rays(from);
    if rays.has(to) {
        let rays2 = get_bishop_rays(to);
        let side1: u64 = rays.0 | fb.0;
        let side2: u64 = rays2.0 | tb.0;
        let r = BitBoard(side1 & side2);
        proof {
            lemma_bit_or(rays.0, fb.0);
            lemma_bit_or(rays2.0, tb.0);
            lemma_bit_and(side1, side2);
            assert forall|t: Square| t.wf() implies (#[trigger] r.contains_spec(t) <==> line_spec(
                from,
                to,
                t,
            )) by {
                assert(bishop_ray_spec(from, to));
                assert(rays.contains_spec(t) <==> bishop_ray_spec(from, t));
                assert(rays2.contains_spec(t) <==> bishop_ray_spec(to, t));
                assert(fb.contains_spec(t) <==> t == from);
                assert(tb.contains_spec(t) <==> t == to);
                lemma_coords_determine(t, from);
                lemma_coords_determine(t, to);
                lemma_coords_determine(from, to);
            }
        }
        return r;
    }
    let rays = get_rook_rays(from);
    if rays.has(to) {
        let rays2 = get_rook_rays(to);
        let side1: u64 = rays.0 | fb.0;
        let side2: u64 = rays2.0 | tb.0;
        let r = BitBoard(side1 & side2);
        proof {
            lemma_bit_or(rays.0, fb.0);
            lemma_bit_or(rays2.0, tb.0);
            lemma_bit_and(side1, side2);
            assert forall|t: Square| t.wf() implies (#[trigger] r.contains_spec(t) <==> line_spec(
                from,
                to,
                t,
            )) by {
                assert(rook_ray_spec(from, to));
                assert(rays.contains_spec(t) <==> rook_ray_spec(from, t));
                assert(rays2.contains_spec(t) <==> rook_ray_spec(to, t));
                assert(fb.contains_spec(t) <==> t == from);
                assert(tb.contains_spec(t) <==> t == to);
                lemma_coords_determine(t, from);
                lemma_coords_determine(t, to);
                lemma_coords_determine(from, to);
            }
        }
        return r;
    }
    proof {
        crate::bitboard::lemma_bit_zero();
        assert forall|t: Square| t.wf() implies !line_spec(from, to, t) by {
            lemma_coords_determine(from, to);
        }
    }
    BitBoard(0)
}

/// On a board whose only occupied squares are `a` and `b`, with `b` exactly
/// `kab` steps from `a` along the unit direction `(dfa, dra)`: a square
/// reachable by sliding both from `a` and from `b`, along directions of the
/// same family as the `a`-`b` line, lies strictly between them.
proof fn lemma_pair(
    b0: u64,
    a: Square,
    b: Square,
    t: Square,
    df1: int,
    dr1: int,
    df2: int,
    dr2: int,
    dfa: int,
    dra: int,
    kab: int,
)
    requires
        a.wf(),
        b.wf(),
        t.wf(),
        unit_delta(df1, dr1),
        unit_delta(df2, dr2),
        unit_delta(dfa, dra),
        (dfa != 0 && dra != 0) ==> (df1 != 0 && dr1 != 0 && df2 != 0 && dr2 != 0),
        (dfa == 0 || dra == 0) ==> (df1 == 0 || dr1 == 0) && (df2 == 0 || dr2 == 0),
        1 <= kab,
        b.file_spec() == a.file_spec() + kab * dfa,
        b.rank_spec() == a.rank_spec() + kab * dra,
        slides_to(b0, a, df1, dr1, t),
        slides_to(b0, b, df2, dr2, t),
        forall|i: int| #[trigger] bit64(b0, i) <==> (i == a.idx() || i == b.idx()),
    ensures
        between_spec(a, b, t),
{
    let k1 = lemma_slides_steps(b0, a, df1, dr1, t);
    let k2 = lemma_slides_steps(b0, b, df2, dr2, t);
    lemma_unit_mult(k1, df1);
    lemma_unit_mult(k1, dr1);
    lemma_unit_mult(k2, df2);
    lemma_unit_mult(k2, dr2);
    lemma_unit_mult(kab, dfa);
    lemma_unit_mult(kab, dra);
    lemma_unit_mult(kab, df1);
    lemma_unit_mult(kab, dr1);
    lemma_unit_mult(kab, df2);
    lemma_unit_mult(kab, dr2);
    lemma_unit_mult(k1 + kab, dfa);
    lemma_unit_mult(k1 + kab, dra);
    lemma_idx_decomp(a);
    lemma_idx_decomp(b);
    lemma_idx_decomp(t);
    lemma_coords_determine(a, b);
    lemma_coords_determine(t, a);
    lemma_coords_determine(t, b);
    assert(t != a);
    assert(t != b);
    if df1 == dfa && dr1 == dra {
        // The ray from `a` points at `b`: past `b` it is blocked, on `b` it
        // would not be a third square, so `t` stops short of `b`.
        if k1 > kab {
            assert(ray_occ(b0, a, df1, dr1, kab));
            assert(false);
        } else if k1 == kab {
            assert(false);
        }
        assert(0 < k1 < kab);
        assert(between_spec(a, b, t));
    } else if df1 == -dfa && dr1 == -dra {
        // The ray from `a` points away from `b`: seen from `b`, the matching
        // ray to `t` crosses `a` first and is blocked there.
        assert(t.file_spec() - b.file_spec() == k2 * df2);
        assert(t.rank_spec() - b.rank_spec() == k2 * dr2);
        assert(df2 == -dfa && dr2 == -dra && k2 == k1 + kab) by {
            if dfa == 1 {
                assert(t.file_spec() - b.file_spec() == -(k1 + kab));
            } else if dfa == -1 {
                assert(t.file_spec() - b.file_spec() == k1 + kab);
            }
            if dra == 1 {
                assert(t.rank_spec() - b.rank_spec() == -(k1 + kab));
            } else if dra == -1 {
                assert(t.rank_spec() - b.rank_spec() == k1 + kab);
            }
        };
        assert(ray_occ(b0, b, df2, dr2, kab));
        assert(false);
    } else {
        // A direction of the family that leaves the `a`-`b` line: the ray
        // from `b` cannot meet it at any square.
        if dfa != 0 && dra != 0 {
            assert(false);
        } else {
            assert(false);
        }
    }
}

/// On the same two-square board, every square strictly between `a` and `b`
/// is reachable by sliding from either end toward the other.
proof fn lemma_between_intro(
    b0: u64,
    a: Square,
    b: Square,
    t: Square,
    dfa: int,
    dra: int,
    kab: int,
)
    requires
        a.wf(),
        b.wf(),
        t.wf(),
        unit_delta(dfa, dra),
        1 <= kab,
        b.file_spec() == a.file_spec() + kab * dfa,
        b.rank_spec() == a.rank_spec() + kab * dra,
        between_spec(a, b, t),
        forall|i: int| #[trigger] bit64(b0, i) <==> (i == a.idx() || i == b.idx()),
    ensures
        slides_to(b0, a, dfa, dra, t),
        slides_to(b0, b, -dfa, -dra, t),
{
    lemma_unit_mult(kab, dfa);
    lemma_unit_mult(kab, dra);
    lemma_idx_decomp(a);
    lemma_idx_decomp(b);
    lemma_idx_decomp(t);
    lemma_coords_determine(a, b);
    // The step count of `t` from `a` along the shared direction.
    let k = if t.file_spec() != a.file_spec() {
        if dfa > 0 {
            t.file_spec() - a.file_spec()
        } else {
            a.file_spec() - t.file_spec()
        }
    } else {
        if dra > 0 {
            t.rank_spec() - a.rank_spec()
        } else {
            a.rank_spec() - t.rank_spec()
        }
    };
    lemma_unit_mult(k, dfa);
    lemma_unit_mult(k, dra);
    lemma_unit_mult(kab - k, dfa);
    lemma_unit_mult(kab - k, dra);
    assert(1 <= k < kab);
    assert(ray_hits(a, dfa, dra, k, t));
    assert forall|j: int| 1 <= j < k implies !#[trigger] ray_occ(b0, a, dfa, dra, j) by {
        lemma_unit_mult(j, dfa);
        lemma_unit_mult(j, dra);
    }
    lemma_slides_intro(b0, a, dfa, dra, t, k);
    assert(ray_hits(b, -dfa, -dra, kab - k, t)) by {
        lemma_unit_mult(kab - k, -dfa);
        lemma_unit_mult(kab - k, -dra);
    };
    assert forall|j: int| 1 <= j < kab - k implies !#[trigger] ray_occ(b0, b, -dfa, -dra, j) by {
        lemma_unit_mult(j, -dfa);
        lemma_unit_mult(j, -dra);
    }
    lemma_slides_intro(b0, b, -dfa, -dra, t, kab - k);
}

/// With no blockers at all, a rook's reachable squares are exactly its full
/// rays: every square of its file and rank, its own square excluded.
pub proof fn lemma_rook_moves_on_empty_board(s: Square, t: Square)
    requires
        s.wf(),
        t.wf(),
    ensures
        rook_slides(0u64, s, t) <==> rook_ray_spec(s, t),
{
    crate::bitboard::lemma_bit_zero();
    lemma_rook_reach(0u64, s, t);
}

/// With no blockers at all, a bishop's reachable squares are exactly its
/// full rays: every square of its two diagonals, its own square excluded.
pub proof fn lemma_bishop_moves_on_empty_board(s: Square, t: Square)
    requires
        s.wf(),
        t.wf(),
    ensures
        bishop_slides(0u64, s, t) <==> bishop_ray_spec(s, t),
{
    crate::bitboard::lemma_bit_zero();
    lemma_diag_reach(0u64, s, t);
}

/// Dispatch of [`lemma_pair`] over the four diagonal directions.
proof fn lemma_pair_diag(b0: u64, a: Square, b: Square, t: Square, dfa: int, dra: int, kab: int)
    requires
        a.wf(),
        b.wf(),
        t.wf(),
        dfa == 1 || dfa == -1,
        dra == 1 || dra == -1,
        1 <= kab,
        b.file_spec() == a.file_spec() + kab * dfa,
        b.rank_spec() == a.rank_spec() + kab * dra,
        bishop_slides(b0, a, t),
        bishop_slides(b0, b, t),
        forall|i: int| #[trigger] bit64(b0, i) <==> (i == a.idx() || i == b.idx()),
    ensures
        between_spec(a, b, t),
{
    let (df1, dr1): (int, int) = if slides_to(b0, a, 1, 1, t) {
        (1, 1)
    } else if slides_to(b0, a, 1, -1, t) {
        (1, -1)
    } else if slides_to(b0, a, -1, -1, t) {
        (-1, -1)
    } else {
        (-1, 1)
    };
    let (df2, dr2): (int, int) = if slides_to(b0, b, 1, 1, t) {
        (1, 1)
    } else if slides_to(b0, b, 1, -1, t) {
        (1, -1)
    } else if slides_to(b0, b, -1, -1, t) {
        (-1, -1)
    } else {
        (-1, 1)
    };
    lemma_pair(b0, a, b, t, df1, dr1, df2, dr2, dfa, dra, kab);
}

/// Dispatch of [`lemma_pair`] over the four straight directions.
proof fn lemma_pair_straight(
    b0: u64,
    a: Square,
    b: Square,
    t: Square,
    dfa: int,
    dra: int,
    kab: int,
)
    requires
        a.wf(),
        b.wf(),
        t.wf(),
        unit_delta(dfa, dra),
        dfa == 0 || dra == 0,
        1 <= kab,
        b.file_spec() == a.file_spec() + kab * dfa,
        b.rank_spec() == a.rank_spec() + kab * dra,
        rook_slides(b0, a, t),
        rook_slides(b0, b, t),
        forall|i: int| #[trigger] bit64(b0, i) <==> (i == a.idx() || i == b.idx()),
    ensures
        between_spec(a, b, t),
{
    let (df1, dr1): (int, int) = if slides_to(b0, a, 1, 0, t) {
        (1, 0)
    } else if slides_to(b0, a, 0, -1, t) {
        (0, -1)
    } else if slides_to(b0, a, -1, 0, t) {
        (-1, 0)
    } else {
        (0, 1)
    };
    let (df2, dr2): (int, int) = if slides_to(b0, b, 1, 0, t) {
        (1, 0)
    } else if slides_to(b0, b, 0, -1, t) {
        (0, -1)
    } else if slides_to(b0, b, -1, 0, t) {
        (-1, 0)
    } else {
        (0, 1)
    };
    lemma_pair(b0, a, b, t, df1, dr1, df2, dr2, dfa, dra, kab);
}

/// Get all squares between two squares, if reachable via a ray: the squares
/// strictly between the two when they share a rank, file or diagonal, and
/// the empty set otherwise.
pub fn get_between_rays(from: Square, to: Square) -> (r: BitBoard)
    requires
        from.wf(),
        to.wf(),
    ensures
        forall|t: Square| t.wf() ==> (#[trigger] r.contains_spec(t) <==> between_spec(
            from,
            to,
            t,
        )),
{
    let fb = from.bitboard();
    let tb = to.bitboard();
    let blockers = BitBoard(fb.0 ^ tb.0);
    let ghost b0 = blockers.0;
    proof {
        lemma_bit_single(from.0 as u64);
        lemma_bit_single(to.0 as u64);
        lemma_bit_xor(fb.0, tb.0);
    }
    let bishop_ray = get_bishop_moves(from, blockers);
    if bishop_ray.has(to) {
        let other = get_bishop_moves(to, blockers);
        let r = BitBoard(bishop_ray.0 & other.0);
        proof {
            lemma_bit_and(bishop_ray.0, other.0);
            lemma_diag_reach(b0, from, to);
            let p = to.file_spec() - from.file_spec();
            let q = to.rank_spec() - from.rank_spec();
            lemma_two_bits(from, to);
            let dfa: int = if p > 0 {
                1
            } else {
                -1
            };
            let dra: int = if q > 0 {
                1
            } else {
                -1
            };
            let kab: int = if p > 0 {
                p
            } else {
                -p
            };
            lemma_unit_mult(kab, dfa);
            lemma_unit_mult(kab, dra);
            assert forall|t: Square| t.wf() implies (#[trigger] r.contains_spec(t)
                <==> between_spec(from, to, t)) by {
                assert(bishop_ray.contains_spec(t) <==> bishop_slides(b0, from, t));
                assert(other.contains_spec(t) <==> bishop_slides(b0, to, t));
                if bit64(r.0, t.idx()) {
                    lemma_pair_diag(b0, from, to, t, dfa, dra, kab);
                } else {
                    if between_spec(from, to, t) {
                        lemma_between_intro(b0, from, to, t, dfa, dra, kab);
                        if dfa == 1 && dra == 1 {
                            assert(slides_to(b0, from, 1, 1, t));
                            assert(slides_to(b0, to, -1, -1, t));
                        } else if dfa == 1 && dra == -1 {
                            assert(slides_to(b0, from, 1, -1, t));
                            assert(slides_to(b0, to, -1, 1, t));
                        } else if dfa == -1 && dra == 1 {
                            assert(slides_to(b0, from, -1, 1, t));
                            assert(slides_to(b0, to, 1, -1, t));
                        } else {
                            assert(slides_to(b0, from, -1, -1, t));
                            assert(slides_to(b0, to, 1, 1, t));
                        }
                        assert(false);
                    }
                }
            }
        }
        return r;
    }
    let rook_ray = get_rook_moves(from, blockers);
    if rook_ray.has(to) {
        let other = get_rook_moves(to, blockers);
        let r = BitBoard(rook_ray.0 & other.0);
        proof {
            lemma_bit_and(rook_ray.0, other.0);
            lemma_rook_reach(b0, from, to);
            let p = to.file_spec() - from.file_spec();
            let q = to.rank_spec() - from.rank_spec();
            lemma_two_bits(from, to);
            let dfa: int = if p > 0 {
                1
            } else if p < 0 {
                -1
            } else {
                0
            };
            let dra: int = if p != 0 {
                0
            } else if q > 0 {
                1
            } else {
                -1
            };
            let kab: int = if p > 0 {
                p
            } else if p < 0 {
                -p
            } else if q > 0 {
                q
            } else {
                -q
            };
            lemma_unit_mult(kab, dfa);
            lemma_unit_mult(kab, dra);
            assert forall|t: Square| t.wf() implies (#[trigger] r.contains_spec(t)
                <==> between_spec(from, to, t)) by {
                assert(rook_ray.contains_spec(t) <==> rook_slides(b0, from, t));
                assert(other.contains_spec(t) <==> rook_slides(b0, to, t));
                if bit64(r.0, t.idx()) {
                    lemma_pair_straight(b0, from, to, t, dfa, dra, kab);
                } else {
                    if between_spec(from, to, t) {
                        lemma_between_intro(b0, from, to, t, dfa, dra, kab);
                        if dfa == 1 {
                            assert(slides_to(b0, from, 1, 0, t));
                            assert(slides_to(b0, to, -1, 0, t));
                        } else if dfa == -1 {
                            assert(slides_to(b0, from, -1, 0, t));
                            assert(slides_to(b0, to, 1, 0, t));
                        } else if dra == 1 {
                            assert(slides_to(b0, from, 0, 1, t));
                            assert(slides_to(b0, to, 0, -1, t));
                        } else {
                            assert(slides_to(b0, from, 0, -1, t));
                            assert(slides_to(b0, to, 0, 1, t));
                        }
                        assert(false);
                    }
                }
            }
        }
        return r;
    }
    proof {
        crate::bitboard::lemma_bit_zero();
        lemma_diag_reach(b0, from, to);
        lemma_rook_reach(b0, from, to);
        assert forall|t: Square| t.wf() implies !between_spec(from, to, t) by {
            lemma_coords_determine(from, to);
        }
    }
    BitBoard(0)
}

} // verus!
