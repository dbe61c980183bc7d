use vstd::prelude::*;
use crate::bitboard::bit64;
use crate::game::ChessGame;
use crate::history::History;
use crate::history::hist_contents;
use crate::history::hist_push;
use crate::history::hist_pop;
use crate::history::hist_count;
use crate::history::hist_as_slice;
use crate::history::hist_from_slice;
use crate::history::count_eq;
use crate::piece::GameStatus;
use crate::piece::Move;
use crate::piece::Piece;
use crate::piece::piece_from_index;
use crate::position::Position;
use crate::square::Square;

verus! {

/// The moves of `moves` that start on a square of `from_mask` and land on a
/// square of `to_mask`, in their original order.
pub open spec fn caps_filter(moves: Seq<Move>, from_mask: u64, to_mask: u64) -> Seq<Move>
    decreases moves.len(),
{
    if moves.len() == 0 {
        Seq::empty()
    } else {
        let rest = caps_filter(moves.drop_last(), from_mask, to_mask);
        let m = moves.last();
        if bit64(from_mask, m.from.idx()) && bit64(to_mask, m.to.idx()) {
            rest.push(m)
        } else {
            rest
        }
    }
}

/// Every move the filter keeps comes from the filtered list.
proof fn lemma_caps_filter_subset(moves: Seq<Move>, from_mask: u64, to_mask: u64)
    ensures
        forall|i: int| 0 <= i < caps_filter(moves, from_mask, to_mask).len() ==> moves.contains(
            #[trigger] caps_filter(moves, from_mask, to_mask)[i],
        ),
    decreases moves.len(),
{
    if moves.len() > 0 {
        let prefix = moves.drop_last();
        lemma_caps_filter_subset(prefix, from_mask, to_mask);
        assert forall|i: int|
            0 <= i < caps_filter(moves, from_mask, to_mask).len() implies moves.contains(
            #[trigger] caps_filter(moves, from_mask, to_mask)[i],
        ) by {
            let f = caps_filter(moves, from_mask, to_mask);
            if i < caps_filter(prefix, from_mask, to_mask).len() {
                let m = caps_filter(prefix, from_mask, to_mask)[i];
                assert(prefix.contains(m));
                let j = choose|j: int| 0 <= j < prefix.len() && prefix[j] == m;
                assert(moves[j] == m);
            } else {
                assert(f[i] == moves.last());
                assert(moves[moves.len() - 1] == moves.last());
            }
        }
    }
}

/// Keep the moves that start on `from_mask` and land on `to_mask`.
fn filter_caps(moves: &Vec<Move>, from_mask: u64, to_mask: u64) -> (r: Vec<Move>)
    ensures
        r@ == caps_filter(moves@, from_mask, to_mask),
{
    let mut out: Vec<Move> = Vec::new();
    let mut i: usize = 0;
    proof {
        assert(moves@.take(0int) =~= Seq::<Move>::empty());
    }
    while i < moves.len()
        invariant
            0 <= i <= moves@.len(),
            out@ == caps_filter(moves@.take(i as int), from_mask, to_mask),
        decreases moves@.len() - i,
    {
        let m = moves[i];
        let from_hit = m.from.index() < 64 && (from_mask >> (m.from.index() as u64)) & 1u64
            == 1u64;
        let to_hit = m.to.index() < 64 && (to_mask >> (m.to.index() as u64)) & 1u64 == 1u64;
        if from_hit && to_hit {
            out.push(m);
        }
        proof {
            assert(moves@.take(i + 1).drop_last() =~= moves@.take(i as int));
            assert(moves@.take(i + 1).last() == moves@[i as int]);
        }
        i = i + 1;
    }
    proof {
        assert(moves@.take(moves@.len() as int) =~= moves@);
    }
    out
}

/// How many plies remain below the quiescence search's hard cap.
pub open spec fn qdepth(ply: int) -> int {
    if ply <= 21 {
        21 - ply
    } else {
        0
    }
}

/// The quiescence search's value, mirrored as a function of the position
/// alone: terminal statuses score as mate or draw; otherwise the static
/// evaluation is a floor, the ply cap returns it at once, and capture
/// sequences are searched victim-by-victim in descending value order.
pub open spec fn qsearch_spec<P: Position>(board: P, ply: int, alpha: int, beta: int) -> int
    decreases qdepth(ply), 3int, 0int,
{
    if board.status_spec() == GameStatus::Won {
        -10_000 + ply
    } else if board.status_spec() == GameStatus::Drawn {
        0
    } else {
        let stand = board.eval_spec();
        if ply >= 20 {
            stand
        } else {
            let a1 = if stand > alpha {
                stand
            } else {
                alpha
            };
            if a1 >= beta {
                stand
            } else {
                qsearch_victims(board, ply, a1, beta, stand, 4)
            }
        }
    }
}

/// Fold of the quiescence search over victim piece kinds, from the queen
/// down to the pawn; the king is never a victim.
pub open spec fn qsearch_victims<P: Position>(
    board: P,
    ply: int,
    alpha: int,
    beta: int,
    best: int,
    vi: int,
) -> int
    decreases qdepth(ply), 2int, vi + 1,
{
    if vi < 0 {
        best
    } else {
        let res = qsearch_attackers(board, ply, alpha, beta, best, piece_from_index(vi), 0);
        if res.2 {
            res.0
        } else {
            qsearch_victims(board, ply, res.1, beta, res.0, vi - 1)
        }
    }
}

/// Fold of the quiescence search over attacker piece kinds for one victim
/// kind, in ascending piece order.
pub open spec fn qsearch_attackers<P: Position>(
    board: P,
    ply: int,
    alpha: int,
    beta: int,
    best: int,
    victim: Piece,
    ai: int,
) -> (int, int, bool)
    decreases qdepth(ply), 1int, 6 - ai,
{
    if ai >= 6 {
        (best, alpha, false)
    } else {
        let vmask = board.colors_spec(board.side_spec().flip_spec()) & board.pieces_spec(victim);
        let caps = caps_filter(
            board.moves_spec(),
            board.pieces_spec(piece_from_index(ai)),
            vmask,
        );
        let res = qsearch_caps(board, ply, alpha, beta, best, caps, 0);
        if res.2 {
            (res.0, res.1, true)
        } else {
            qsearch_attackers(board, ply, res.1, beta, res.0, victim, ai + 1)
        }
    }
}

/// Fold of the quiescence search over one list of captures: negamax on each
/// child, raising the floor and failing high on a beta cutoff.
pub open spec fn qsearch_caps<P: Position>(
    board: P,
    ply: int,
    alpha: int,
    beta: int,
    best: int,
    caps: Seq<Move>,
    i: int,
) -> (int, int, bool)
    decreases qdepth(ply), 0int, caps.len() - i,
{
    if ply >= 20 {
        (best, alpha, false)
    } else if i >= caps.len() {
        (best, alpha, false)
    } else {
        let child = board.after_spec(caps[i]);
        let ev = -qsearch_spec(child, ply + 1, -beta, -alpha);
        let best2 = if ev > best {
            ev
        } else {
            best
        };
        let alpha2 = if best2 > alpha {
            best2
        } else {
            alpha
        };
        if alpha2 >= beta {
            (best2, alpha2, true)
        } else {
            qsearch_caps(board, ply, alpha2, beta, best2, caps, i + 1)
        }
    }
}

/// Quiescence termination: at or past the ply cap, on a running position,
/// the quiescence search is exactly the static evaluation, whatever the
/// window; no capture is considered.
pub proof fn lemma_qsearch_ply_cap<P: Position>(board: P, ply: int, alpha: int, beta: int)
    requires
        ply >= 20,
        board.status_spec() == GameStatus::Ongoing,
    ensures
        qsearch_spec(board, ply, alpha, beta) == board.eval_spec(),
{
}

fn qsearch_caps_exec<P: Position>(
    board: &P,
    ply_index: u8,
    alpha: i16,
    beta: i16,
    best: i16,
    caps: &Vec<Move>,
    i: usize,
) -> (r: (i16, i16, bool))
    requires
        board.wf(),
        ply_index < 20,
        i <= caps@.len(),
        forall|j: int| 0 <= j < caps@.len() ==> board.moves_spec().contains(#[trigger] caps@[j]),
        -15_000 <= alpha as int <= 15_000,
        -15_000 <= beta as int <= 15_000,
        -10_000 <= best as int <= 10_000,
    ensures
        r.0 as int == qsearch_caps(
            *board,
            ply_index as int,
            alpha as int,
            beta as int,
            best as int,
            caps@,
            i as int,
        ).0,
        r.1 as int == qsearch_caps(
            *board,
            ply_index as int,
            alpha as int,
            beta as int,
            best as int,
            caps@,
            i as int,
        ).1,
        r.2 == qsearch_caps(
            *board,
            ply_index as int,
            alpha as int,
            beta as int,
            best as int,
            caps@,
            i as int,
        ).2,
        -10_000 <= r.0 as int <= 10_000,
        -15_000 <= r.1 as int <= 15_000,
    decreases qdepth(ply_index as int), 0int, caps@.len() - i as int,
{
    if i >= caps.len() {
        return (best, alpha, false);
    }
    let mv = caps[i];
    proof {
        assert(board.moves_spec().contains(caps@[i as int]));
    }
    let child = board.play(mv);
    proof {
        board.lemma_play_wf(mv);
    }
    let ev_raw = qsearch(&child, ply_index + 1, -beta, -alpha);
    let ev = -ev_raw;
    let best2 = if ev > best {
        ev
    } else {
        best
    };
    let alpha2 = if best2 > alpha {
        best2
    } else {
        alpha
    };
    if alpha2 >= beta {
        (best2, alpha2, true)
    } else {
        qsearch_caps_exec(board, ply_index, alpha2, beta, best2, caps, i + 1)
    }
}

fn qsearch_attackers_exec<P: Position>(
    board: &P,
    ply_index: u8,
    alpha: i16,
    beta: i16,
    best: i16,
    victim: Piece,
    ai: usize,
) -> (r: (i16, i16, bool))
    requires
        board.wf(),
        ply_index < 20,
        ai <= 6,
        -15_000 <= alpha as int <= 15_000,
        -15_000 <= beta as int <= 15_000,
        -10_000 <= best as int <= 10_000,
    ensures
        r.0 as int == qsearch_attackers(
            *board,
            ply_index as int,
            alpha as int,
            beta as int,
            best as int,
            victim,
            ai as int,
        ).0,
        r.1 as int == qsearch_attackers(
            *board,
            ply_index as int,
            alpha as int,
            beta as int,
            best as int,
            victim,
            ai as int,
        ).1,
        r.2 == qsearch_attackers(
            *board,
            ply_index as int,
            alpha as int,
            beta as int,
            best as int,
            victim,
            ai as int,
        ).2,
        -10_000 <= r.0 as int <= 10_000,
        -15_000 <= r.1 as int <= 15_000,
    decreases qdepth(ply_index as int), 1int, 6 - ai as int,
{
    if ai >= 6 {
        return (best, alpha, false);
    }
    let attacker = match Piece::try_index(ai) {
        Some(p) => p,
        None => {
            proof {
                assert(false);
            }
            Piece::Pawn
        },
    };
    let victims = board.colors(board.side_to_move().flip()).intersect(board.pieces(victim));
    let attackers = board.pieces(attacker);
    let moves = board.legal_moves();
    let caps = filter_caps(&moves, attackers.0, victims.0);
    proof {
        lemma_caps_filter_subset(board.moves_spec(), attackers.0, victims.0);
    }
    let res = qsearch_caps_exec(board, ply_index, alpha, beta, best, &caps, 0);
    if res.2 {
        (res.0, res.1, true)
    } else {
        qsearch_attackers_exec(board, ply_index, res.1, beta, res.0, victim, ai + 1)
    }
}

fn qsearch_victims_exec<P: Position>(
    board: &P,
    ply_index: u8,
    alpha: i16,
    beta: i16,
    best: i16,
    vi: i8,
) -> (r: i16)
    requires
        board.wf(),
        ply_index < 20,
        -1 <= vi <= 4,
        -15_000 <= alpha as int <= 15_000,
        -15_000 <= beta as int <= 15_000,
        -10_000 <= best as int <= 10_000,
    ensures
        r as int == qsearch_victims(
            *board,
            ply_index as int,
            alpha as int,
            beta as int,
            best as int,
            vi as int,
        ),
        -10_000 <= r as int <= 10_000,
    decreases qdepth(ply_index as int), 2int, vi as int + 1,
{
    if vi < 0 {
        return best;
    }
    let victim = match Piece::try_index(vi as usize) {
        Some(p) => p,
        None => {
            proof {
                assert(false);
            }
            Piece::Pawn
        },
    };
    let res = qsearch_attackers_exec(board, ply_index, alpha, beta, best, victim, 0);
    if res.2 {
        res.0
    } else {
        qsearch_victims_exec(board, ply_index, res.1, beta, res.0, vi - 1)
    }
}

/// Quiescence search: resolve capture sequences only, starting from the
/// static evaluation as a floor, with a hard recursion cap at ply 20. The
/// result equals [`qsearch_spec`] of the arguments, so equal calls return
/// equal scores.
pub fn qsearch<P: Position>(board: &P, ply_index: u8, alpha: i16, beta: i16) -> (r: i16)
    requires
        board.wf(),
        ply_index <= 64,
        -15_000 <= alpha as int <= 15_000,
        -15_000 <= beta as int <= 15_000,
    ensures
        r as int == qsearch_spec(*board, ply_index as int, alpha as int, beta as int),
        -10_000 <= r as int <= 10_000,
    decreases qdepth(ply_index as int), 3int, 0int,
{
    match board.status() {
        GameStatus::Won => {
            return -10_000 + ply_index as i16;
        },
        GameStatus::Drawn => {
            return 0;
        },
        GameStatus::Ongoing => {},
    }
    let stand_pat = board.evaluate();
    proof {
        board.lemma_eval_bounded();
    }
    if ply_index >= 20 {
        return stand_pat;
    }
    let a1 = if stand_pat > alpha {
        stand_pat
    } else {
        alpha
    };
    if a1 >= beta {
        return stand_pat;
    }
    qsearch_victims_exec(board, ply_index, a1, beta, stand_pat, 4)
}

/// The negamax search's move-and-score result, mirrored as a function of
/// the path's hash history and the position: a lost position scores as a
/// mate biased to prefer the quickest one, a drawn position as zero, a
/// position already seen twice on the path as a conservative draw, and an
/// exhausted depth hands over to the quiescence search; otherwise the legal
/// moves are searched left to right with an alpha-beta window.
pub open spec fn search_spec<P: Position>(
    hist: Seq<u64>,
    board: P,
    depth: int,
    ply: int,
    alpha: int,
    beta: int,
) -> (Option<Move>, int)
    decreases depth, 1int, 0int,
{
    if board.status_spec() == GameStatus::Won {
        (None::<Move>, -10_000 + ply)
    } else if board.status_spec() == GameStatus::Drawn {
        (None::<Move>, 0)
    } else if count_eq(hist, board.hash_spec()) >= 2 {
        (None::<Move>, 0)
    } else if depth <= 0 {
        (None::<Move>, qsearch_spec(board, ply + 1, -beta, -alpha))
    } else {
        search_moves(
            hist.push(board.hash_spec()),
            board,
            board.moves_spec(),
            0,
            depth,
            ply,
            alpha,
            beta,
            None::<Move>,
            i16::MIN as int,
        )
    }
}

/// Fold of the negamax search over the legal moves: each child is searched
/// one ply deeper with the window negated and swapped, the best score and
/// its move are tracked, and the fold stops on a beta cutoff.
pub open spec fn search_moves<P: Position>(
    hist: Seq<u64>,
    board: P,
    moves: Seq<Move>,
    i: int,
    depth: int,
    ply: int,
    alpha: int,
    beta: int,
    best: Option<Move>,
    value: int,
) -> (Option<Move>, int)
    decreases depth, 0int, moves.len() - i,
{
    if depth <= 0 {
        (best, value)
    } else if i >= moves.len() {
        (best, value)
    } else {
        let child = board.after_spec(moves[i]);
        let cv = -search_spec(hist, child, depth - 1, ply + 1, -beta, -alpha).1;
        if cv > value {
            if cv > alpha {
                if cv >= beta {
                    (Some(moves[i]), cv)
                } else {
                    search_moves(hist, board, moves, i + 1, depth, ply, cv, beta, Some(moves[i]), cv)
                }
            } else {
                search_moves(hist, board, moves, i + 1, depth, ply, alpha, beta, Some(moves[i]), cv)
            }
        } else {
            search_moves(hist, board, moves, i + 1, depth, ply, alpha, beta, best, value)
        }
    }
}

/// Repetition short-circuit: a running position whose hash already stands
/// twice in the path's history scores as a draw at once, with no move.
pub proof fn lemma_search_repetition<P: Position>(
    hist: Seq<u64>,
    board: P,
    depth: int,
    ply: int,
    alpha: int,
    beta: int,
)
    requires
        board.status_spec() == GameStatus::Ongoing,
        count_eq(hist, board.hash_spec()) >= 2,
    ensures
        search_spec(hist, board, depth, ply, alpha, beta) == (None::<Move>, 0int),
{
}

fn search_moves_exec<P: Position>(
    history: &mut History,
    board: &P,
    moves: &Vec<Move>,
    i: usize,
    depth: u8,
    ply_index: u8,
    alpha: i16,
    beta: i16,
    best: Option<Move>,
    value: i16,
) -> (r: (Option<Move>, i16))
    requires
        board.wf(),
        1 <= depth <= 30,
        ply_index as int + depth as int <= 60,
        i <= moves@.len(),
        moves@ == board.moves_spec(),
        hist_contents(*old(history)).len() + depth as int <= 151,
        -15_000 <= alpha as int <= 15_000,
        -15_000 <= beta as int <= 15_000,
        value == i16::MIN || -10_000 <= value as int <= 10_000,
        best is Some <==> value != i16::MIN,
        best matches Some(m) ==> board.moves_spec().contains(m),
    ensures
        hist_contents(*final(history)) == hist_contents(*old(history)),
        r.0 == search_moves(
            hist_contents(*old(history)),
            *board,
            moves@,
            i as int,
            depth as int,
            ply_index as int,
            alpha as int,
            beta as int,
            best,
            value as int,
        ).0,
        r.1 as int == search_moves(
            hist_contents(*old(history)),
            *board,
            moves@,
            i as int,
            depth as int,
            ply_index as int,
            alpha as int,
            beta as int,
            best,
            value as int,
        ).1,
        r.1 == i16::MIN || -10_000 <= r.1 as int <= 10_000,
        r.0 is Some <==> r.1 != i16::MIN,
        r.0 matches Some(m) ==> board.moves_spec().contains(m),
        ((best is Some) || (i as int) < moves@.len()) ==> r.0 is Some,
    decreases depth as int, 0int, moves@.len() - i as int,
{
    if i >= moves.len() {
        return (best, value);
    }
    let mv = moves[i];
    proof {
        assert(board.moves_spec().contains(moves@[i as int]));
    }
    let child = board.play(mv);
    proof {
        board.lemma_play_wf(mv);
    }
    let cres = search(history, &child, depth - 1, ply_index + 1, -beta, -alpha);
    let cv = -cres.1;
    if cv > value {
        if cv > alpha {
            if cv >= beta {
                return (Some(mv), cv);
            }
            return search_moves_exec(
                history,
                board,
                moves,
                i + 1,
                depth,
                ply_index,
                cv,
                beta,
                Some(mv),
                cv,
            );
        }
        return search_moves_exec(
            history,
            board,
            moves,
            i + 1,
            depth,
            ply_index,
            alpha,
            beta,
            Some(mv),
            cv,
        );
    }
    search_moves_exec(history, board, moves, i + 1, depth, ply_index, alpha, beta, best, value)
}

/// Negamax search with alpha-beta pruning: explore every legal move to the
/// given depth, then hand over to the quiescence search, against the path's
/// hash history. The result equals [`search_spec`] of the arguments, so two
/// calls with identical arguments return identical move-score pairs, and
/// the history is handed back exactly as it was.
pub fn search<P: Position>(
    history: &mut History,
    board: &P,
    depth: u8,
    ply_index: u8,
    alpha: i16,
    beta: i16,
) -> (r: (Option<Move>, i16))
    requires
        board.wf(),
        depth <= 30,
        ply_index as int + depth as int <= 60,
        hist_contents(*old(history)).len() + depth as int <= 150,
        -15_000 <= alpha as int <= 15_000,
        -15_000 <= beta as int <= 15_000,
    ensures
        hist_contents(*final(history)) == hist_contents(*old(history)),
        r.0 == search_spec(
            hist_contents(*old(history)),
            *board,
            depth as int,
            ply_index as int,
            alpha as int,
            beta as int,
        ).0,
        r.1 as int == search_spec(
            hist_contents(*old(history)),
            *board,
            depth as int,
            ply_index as int,
            alpha as int,
            beta as int,
        ).1,
        -10_000 <= r.1 as int <= 10_000,
        r.0 matches Some(m) ==> board.moves_spec().contains(m),
        (board.status_spec() == GameStatus::Ongoing && count_eq(
            hist_contents(*old(history)),
            board.hash_spec(),
        ) < 2 && depth > 0) ==> r.0 is Some,
    decreases depth as int, 1int, 0int,
{
    match board.status() {
        GameStatus::Won => {
            return (None, -10_000 + ply_index as i16);
        },
        GameStatus::Drawn => {
            return (None, 0);
        },
        GameStatus::Ongoing => {},
    }
    let h = board.hash();
    let reps = hist_count(history, h);
    if reps >= 2 {
        return (None, 0);
    }
    if depth == 0 {
        let q = qsearch(board, ply_index + 1, -beta, -alpha);
        return (None, q);
    }
    let ghost pre = hist_contents(*history);
    let push_res = hist_push(history, h);
    proof {
        board.lemma_ongoing_has_moves();
    }
    let moves = board.legal_moves();
    let res = search_moves_exec(
        history,
        board,
        &moves,
        0,
        depth,
        ply_index,
        alpha,
        beta,
        None,
        i16::MIN,
    );
    let _ = hist_pop(history);
    proof {
        assert(hist_contents(*history) =~= pre);
    }
    res
}

/// Pick a move for the side to move: a book move chosen by the caller's
/// random value when the opening book has entries for this position, and
/// the result of a depth-2 search otherwise. The history's newest entry,
/// the current position itself, is set aside first, as the search will
/// count the current position against the path again.
pub fn best_move<P: Position>(game: &ChessGame<P>, random: u64) -> (r: Move)
    requires
        game.wf(),
        game.board.status_spec() == GameStatus::Ongoing,
        count_eq(hist_contents(game.history).drop_last(), game.board.hash_spec()) < 2,
        hist_contents(game.history).len() <= 149,
    ensures
        game.board.moves_spec().contains(r),
        game.board.book_spec().len() > 0 ==> r == game.board.book_spec()[(random as int) % (
        game.board.book_spec().len() as int)],
        game.board.book_spec().len() == 0 ==> Some(r) == search_spec(
            hist_contents(game.history).drop_last(),
            game.board,
            2,
            0,
            -15_000,
            15_000,
        ).0,
{
    let book = game.board.book_moves();
    if book.len() > 0 {
        let idx = (random % (book.len() as u64)) as usize;
        proof {
            assert(book@.len() > 0);
            assert(random as int % (book@.len() as int) == (random % (book.len() as u64)) as int);
        }
        return book[idx];
    }
    let s = hist_as_slice(&game.history);
    let mut history = match hist_from_slice(s) {
        Ok(v) => v,
        Err(()) => {
            proof {
                assert(false);
            }
            return Move { from: Square(0), to: Square(0), promotion: None };
        },
    };
    let _ = hist_pop(&mut history);
    let res = search(&mut history, &game.board, 2, 0, -15_000, 15_000);
    match res.0 {
        Some(m) => m,
        None => {
            proof {
                assert(false);
            }
            Move { from: Square(0), to: Square(0), promotion: None }
        },
    }
}

} // verus!
