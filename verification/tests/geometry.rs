use glowfish::bitboard::BitBoard;
use glowfish::moves::get_between_rays;
use glowfish::moves::get_bishop_moves;
use glowfish::moves::get_bishop_rays;
use glowfish::moves::get_king_moves;
use glowfish::moves::get_knight_moves;
use glowfish::moves::get_line_rays;
use glowfish::moves::get_pawn_attacks;
use glowfish::moves::get_pawn_quiets;
use glowfish::moves::get_rook_moves;
use glowfish::moves::get_rook_rays;
use glowfish::color::Color;
use glowfish::square::File;
use glowfish::square::Rank;
use glowfish::square::Square;

fn sq(f: File, r: Rank) -> Square {
    Square::new(f, r)
}

fn bb(squares: &[Square]) -> BitBoard {
    let mut out = BitBoard(0);
    for s in squares {
        out = out.union(s.bitboard());
    }
    out
}

#[test]
fn rook_moves_on_empty_board_reach_full_cross() {
    let d3 = sq(File::D, Rank::Third);
    let moves = get_rook_moves(d3, BitBoard(0));
    assert_eq!(moves.popcnt(), 14);
    assert_eq!(moves, get_rook_rays(d3));
    assert!(!moves.has(d3));
    assert!(moves.has(sq(File::A, Rank::Third)));
    assert!(moves.has(sq(File::H, Rank::Third)));
    assert!(moves.has(sq(File::D, Rank::First)));
    assert!(moves.has(sq(File::D, Rank::Eighth)));
}

#[test]
fn rook_ray_stops_at_and_includes_first_blocker() {
    let d3 = sq(File::D, Rank::Third);
    let d5 = sq(File::D, Rank::Fifth);
    let moves = get_rook_moves(d3, d5.bitboard());
    assert!(moves.has(sq(File::D, Rank::Fourth)));
    assert!(moves.has(d5));
    assert!(!moves.has(sq(File::D, Rank::Sixth)));
    assert!(!moves.has(sq(File::D, Rank::Seventh)));
    assert!(!moves.has(sq(File::D, Rank::Eighth)));
    assert!(moves.has(sq(File::A, Rank::Third)));
}

#[test]
fn rook_moves_with_several_blockers() {
    let d3 = sq(File::D, Rank::Third);
    let blockers = bb(&[
        sq(File::D, Rank::Eighth),
        sq(File::D, Rank::Sixth),
        sq(File::H, Rank::Third),
        sq(File::F, Rank::Second),
    ]);
    let moves = get_rook_moves(d3, blockers);
    let expected = bb(&[
        sq(File::D, Rank::Sixth),
        sq(File::D, Rank::Fifth),
        sq(File::D, Rank::Fourth),
        sq(File::A, Rank::Third),
        sq(File::B, Rank::Third),
        sq(File::C, Rank::Third),
        sq(File::E, Rank::Third),
        sq(File::F, Rank::Third),
        sq(File::G, Rank::Third),
        sq(File::H, Rank::Third),
        sq(File::D, Rank::Second),
        sq(File::D, Rank::First),
    ]);
    assert_eq!(moves, expected);
}

#[test]
fn bishop_moves_with_several_blockers() {
    let d3 = sq(File::D, Rank::Third);
    let blockers = bb(&[
        sq(File::H, Rank::Seventh),
        sq(File::C, Rank::Sixth),
        sq(File::F, Rank::Fifth),
        sq(File::F, Rank::First),
    ]);
    let moves = get_bishop_moves(d3, blockers);
    let expected = bb(&[
        sq(File::A, Rank::Sixth),
        sq(File::B, Rank::Fifth),
        sq(File::F, Rank::Fifth),
        sq(File::C, Rank::Fourth),
        sq(File::E, Rank::Fourth),
        sq(File::C, Rank::Second),
        sq(File::E, Rank::Second),
        sq(File::B, Rank::First),
        sq(File::F, Rank::First),
    ]);
    assert_eq!(moves, expected);
}

#[test]
fn bishop_rays_are_both_full_diagonals() {
    let d3 = sq(File::D, Rank::Third);
    let rays = get_bishop_rays(d3);
    let expected = bb(&[
        sq(File::B, Rank::First),
        sq(File::C, Rank::Second),
        sq(File::E, Rank::Fourth),
        sq(File::F, Rank::Fifth),
        sq(File::G, Rank::Sixth),
        sq(File::H, Rank::Seventh),
        sq(File::F, Rank::First),
        sq(File::E, Rank::Second),
        sq(File::C, Rank::Fourth),
        sq(File::B, Rank::Fifth),
        sq(File::A, Rank::Sixth),
    ]);
    assert_eq!(rays, expected);
}

#[test]
fn knight_moves_from_central_square() {
    let d3 = sq(File::D, Rank::Third);
    let moves = get_knight_moves(d3);
    let expected = bb(&[
        sq(File::C, Rank::First),
        sq(File::E, Rank::First),
        sq(File::B, Rank::Second),
        sq(File::F, Rank::Second),
        sq(File::B, Rank::Fourth),
        sq(File::F, Rank::Fourth),
        sq(File::C, Rank::Fifth),
        sq(File::E, Rank::Fifth),
    ]);
    assert_eq!(moves, expected);
}

#[test]
fn knight_moves_never_wrap_at_the_edge() {
    let a1 = sq(File::A, Rank::First);
    let moves = get_knight_moves(a1);
    let expected = bb(&[sq(File::B, Rank::Third), sq(File::C, Rank::Second)]);
    assert_eq!(moves, expected);
}

#[test]
fn king_moves_from_central_square() {
    let d3 = sq(File::D, Rank::Third);
    let moves = get_king_moves(d3);
    assert_eq!(moves.popcnt(), 8);
    assert!(moves.has(sq(File::C, Rank::Second)));
    assert!(moves.has(sq(File::E, Rank::Fourth)));
    assert!(!moves.has(d3));
}

#[test]
fn king_moves_in_the_corner() {
    let h8 = sq(File::H, Rank::Eighth);
    let moves = get_king_moves(h8);
    let expected = bb(&[
        sq(File::G, Rank::Eighth),
        sq(File::G, Rank::Seventh),
        sq(File::H, Rank::Seventh),
    ]);
    assert_eq!(moves, expected);
}

#[test]
fn pawn_attacks_go_forward_by_color() {
    let d3 = sq(File::D, Rank::Third);
    let white = get_pawn_attacks(d3, Color::White);
    assert_eq!(
        white,
        bb(&[sq(File::C, Rank::Fourth), sq(File::E, Rank::Fourth)])
    );
    let black = get_pawn_attacks(d3, Color::Black);
    assert_eq!(
        black,
        bb(&[sq(File::C, Rank::Second), sq(File::E, Rank::Second)])
    );
}

#[test]
fn pawn_quiets_single_and_double_step() {
    let d2 = sq(File::D, Rank::Second);
    let moves = get_pawn_quiets(d2, Color::White, BitBoard(0));
    assert_eq!(
        moves,
        bb(&[sq(File::D, Rank::Third), sq(File::D, Rank::Fourth)])
    );
}

#[test]
fn pawn_double_step_blocked_by_far_square() {
    let d7 = sq(File::D, Rank::Seventh);
    let blockers = sq(File::D, Rank::Fifth).bitboard();
    let moves = get_pawn_quiets(d7, Color::Black, blockers);
    assert_eq!(moves, bb(&[sq(File::D, Rank::Sixth)]));
}

#[test]
fn pawn_single_blocker_blocks_both_steps() {
    let d2 = sq(File::D, Rank::Second);
    let blockers = sq(File::D, Rank::Third).bitboard();
    let moves = get_pawn_quiets(d2, Color::White, blockers);
    assert_eq!(moves, BitBoard(0));
}

#[test]
fn between_rays_on_a_shared_rank() {
    let b4 = sq(File::B, Rank::Fourth);
    let g4 = sq(File::G, Rank::Fourth);
    let expected = bb(&[
        sq(File::C, Rank::Fourth),
        sq(File::D, Rank::Fourth),
        sq(File::E, Rank::Fourth),
        sq(File::F, Rank::Fourth),
    ]);
    assert_eq!(get_between_rays(b4, g4), expected);
    assert_eq!(get_between_rays(g4, b4), expected);
}

#[test]
fn between_rays_on_a_shared_diagonal() {
    let d2 = sq(File::D, Rank::Second);
    let g5 = sq(File::G, Rank::Fifth);
    let expected = bb(&[sq(File::E, Rank::Third), sq(File::F, Rank::Fourth)]);
    assert_eq!(get_between_rays(d2, g5), expected);
}

#[test]
fn between_rays_of_unrelated_squares_is_empty() {
    let b4 = sq(File::B, Rank::Fourth);
    let c6 = sq(File::C, Rank::Sixth);
    assert_eq!(get_between_rays(b4, c6), BitBoard(0));
    assert_eq!(get_between_rays(b4, b4), BitBoard(0));
}

#[test]
fn line_rays_give_the_full_diagonal_with_endpoints() {
    let d2 = sq(File::D, Rank::Second);
    let g5 = sq(File::G, Rank::Fifth);
    let expected = bb(&[
        sq(File::C, Rank::First),
        sq(File::D, Rank::Second),
        sq(File::E, Rank::Third),
        sq(File::F, Rank::Fourth),
        sq(File::G, Rank::Fifth),
        sq(File::H, Rank::Sixth),
    ]);
    assert_eq!(get_line_rays(d2, g5), expected);
}

#[test]
fn line_rays_give_the_full_rank_with_endpoints() {
    let b4 = sq(File::B, Rank::Fourth);
    let g4 = sq(File::G, Rank::Fourth);
    let line = get_line_rays(b4, g4);
    assert_eq!(line.popcnt(), 8);
    assert!(line.has(sq(File::A, Rank::Fourth)));
    assert!(line.has(b4));
    assert!(line.has(g4));
    assert!(line.has(sq(File::H, Rank::Fourth)));
}

#[test]
fn line_rays_of_unrelated_squares_is_empty() {
    let a1 = sq(File::A, Rank::First);
    let b3 = sq(File::B, Rank::Third);
    assert_eq!(get_line_rays(a1, b3), BitBoard(0));
    assert_eq!(get_line_rays(a1, a1), BitBoard(0));
}

#[test]
fn queen_reach_is_union_of_rook_and_bishop() {
    let d3 = sq(File::D, Rank::Third);
    let blockers = bb(&[sq(File::D, Rank::Fifth), sq(File::F, Rank::Fifth)]);
    let queen = get_rook_moves(d3, blockers).union(get_bishop_moves(d3, blockers));
    assert!(queen.has(sq(File::D, Rank::Fourth)));
    assert!(queen.has(sq(File::E, Rank::Fourth)));
    assert!(queen.has(sq(File::A, Rank::Third)));
}
