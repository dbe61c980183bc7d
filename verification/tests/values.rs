use glowfish::color::Color;
use glowfish::eval::PhasedEval;
use glowfish::piece::Piece;
use glowfish::piece::Promotion;
use glowfish::rng::Rng;
use glowfish::square::File;
use glowfish::square::Rank;
use glowfish::square::Square;
use glowfish::square::SquareParseError;
use glowfish::wasm4::DrawColor;
use glowfish::wasm4::GamepadState;
use glowfish::wasm4::TwoBppSprite;

#[test]
fn flipping_a_file_or_rank_twice_gives_the_square_back() {
    for f in 0..8usize {
        for r in 0..8usize {
            let s = Square::new(File::try_index(f).unwrap(), Rank::try_index(r).unwrap());
            assert_eq!(s.flip_file().flip_file(), s);
            assert_eq!(s.flip_rank().flip_rank(), s);
        }
    }
}

#[test]
fn flips_mirror_across_the_board() {
    let a1 = Square::new(File::A, Rank::First);
    assert_eq!(a1.flip_file(), Square::new(File::H, Rank::First));
    assert_eq!(a1.flip_rank(), Square::new(File::A, Rank::Eighth));
}

#[test]
fn try_offset_is_absent_exactly_off_the_board() {
    let a1 = Square::new(File::A, Rank::First);
    assert_eq!(a1.try_offset(-1, 0), None);
    assert_eq!(a1.try_offset(0, -1), None);
    assert_eq!(a1.try_offset(1, 2), Some(Square::new(File::B, Rank::Third)));
    let h4 = Square::new(File::H, Rank::Fourth);
    assert_eq!(h4.try_offset(1, 0), None);
    assert_eq!(h4.try_offset(-1, 0), Some(Square::new(File::G, Rank::Fourth)));
    let h8 = Square::new(File::H, Rank::Eighth);
    assert_eq!(h8.try_offset(1, 1), None);
    assert_eq!(h8.try_offset(120, 0), None);
    assert_eq!(h8.try_offset(-7, -7), Some(Square::new(File::A, Rank::First)));
}

#[test]
fn offset_moves_by_the_given_deltas() {
    let a1 = Square::new(File::A, Rank::First);
    assert_eq!(a1.offset(1, 2), Square::new(File::B, Rank::Third));
}

#[test]
fn square_new_combines_file_and_rank() {
    let e4 = Square::new(File::E, Rank::Fourth);
    assert_eq!(e4.file(), File::E);
    assert_eq!(e4.rank(), Rank::Fourth);
    assert_eq!(e4.index(), 3 * 8 + 4);
    assert_eq!(Square::new(File::A, Rank::First).index(), 0);
    assert_eq!(Square::new(File::H, Rank::Eighth).index(), 63);
}

#[test]
fn square_bitboard_holds_that_square_alone() {
    let b2 = Square::new(File::B, Rank::Second);
    let bb = b2.bitboard();
    assert_eq!(bb.popcnt(), 1);
    assert!(bb.has(b2));
    assert!(!bb.has(Square::new(File::B, Rank::Third)));
    assert_eq!(bb.0, 1u64 << 9);
}

#[test]
fn square_parsing_accepts_names_and_rejects_junk() {
    assert_eq!(Square::from_str("e4"), Ok(Square::new(File::E, Rank::Fourth)));
    assert_eq!(Square::from_str("a1"), Ok(Square::new(File::A, Rank::First)));
    assert_eq!(Square::from_str("h8"), Ok(Square::new(File::H, Rank::Eighth)));
    assert_eq!(Square::from_str(""), Err(SquareParseError::InvalidSquare));
    assert_eq!(Square::from_str("e"), Err(SquareParseError::InvalidSquare));
    assert_eq!(Square::from_str("e9"), Err(SquareParseError::InvalidSquare));
    assert_eq!(Square::from_str("i4"), Err(SquareParseError::InvalidSquare));
    assert_eq!(Square::from_str("e44"), Err(SquareParseError::InvalidSquare));
}

#[test]
fn rank_relative_to_black_is_mirrored() {
    assert_eq!(Rank::Second.relative_to(Color::White), Rank::Second);
    assert_eq!(Rank::Second.relative_to(Color::Black), Rank::Seventh);
    assert_eq!(Rank::Eighth.relative_to(Color::Black), Rank::First);
}

#[test]
fn color_flip_swaps_the_sides() {
    assert_eq!(Color::White.flip(), Color::Black);
    assert_eq!(Color::Black.flip(), Color::White);
}

#[test]
fn file_and_rank_bitboards_are_lines() {
    let fbb = File::D.bitboard();
    assert_eq!(fbb.popcnt(), 8);
    assert!(fbb.has(Square::new(File::D, Rank::First)));
    assert!(fbb.has(Square::new(File::D, Rank::Eighth)));
    assert!(!fbb.has(Square::new(File::E, Rank::First)));
    let rbb = Rank::Third.bitboard();
    assert_eq!(rbb.popcnt(), 8);
    assert!(rbb.has(Square::new(File::A, Rank::Third)));
    assert!(!rbb.has(Square::new(File::A, Rank::Fourth)));
}

#[test]
fn promotion_yields_its_piece() {
    assert_eq!(Promotion::Queen.piece(), Piece::Queen);
    assert_eq!(Promotion::Knight.piece(), Piece::Knight);
    assert_eq!(Promotion::Rook.piece(), Piece::Rook);
    assert_eq!(Promotion::Bishop.piece(), Piece::Bishop);
}

#[test]
fn piece_ordinals_round_trip() {
    assert_eq!(Piece::try_index(0), Some(Piece::Pawn));
    assert_eq!(Piece::try_index(4), Some(Piece::Queen));
    assert_eq!(Piece::try_index(5), Some(Piece::King));
    assert_eq!(Piece::try_index(6), None);
}

#[test]
fn phased_eval_componentwise_arithmetic() {
    let a = PhasedEval(30, -20);
    let b = PhasedEval(12, 5);
    assert_eq!(a.add(b), PhasedEval(42, -15));
    assert_eq!(a.sub(b), PhasedEval(18, -25));
    assert_eq!(a.mul(b), PhasedEval(360, -100));
    assert_eq!(a.neg(), PhasedEval(-30, 20));
    assert_eq!(PhasedEval::default(), PhasedEval(0, 0));
}

#[test]
fn phased_eval_division_truncates_toward_zero() {
    assert_eq!(PhasedEval(-7, 7).div(PhasedEval(2, -2)), PhasedEval(-3, -3));
    assert_eq!(PhasedEval(-7, 7).div(PhasedEval(-2, 2)), PhasedEval(3, 3));
    assert_eq!(PhasedEval(9, 10).div(PhasedEval(3, 4)), PhasedEval(3, 2));
}

#[test]
fn rng_streams_are_deterministic_and_move_on() {
    let mut a = Rng::new();
    let mut b = Rng::new();
    let a1 = a.next();
    let a2 = a.next();
    assert_eq!(a1, b.next());
    assert_eq!(a2, b.next());
    assert_ne!(a1, a2);
}

#[test]
fn gamepad_buttons_decode_their_bits() {
    let pad = GamepadState(0b1001_0011);
    assert!(pad.button_x());
    assert!(pad.button_z());
    assert!(pad.left());
    assert!(!pad.right());
    assert!(!pad.up());
    assert!(pad.down());
    assert!(!GamepadState::default().button_x());
}

#[test]
fn newly_pressed_keeps_only_fresh_buttons() {
    let now = GamepadState(0b1111_0000);
    let prev = GamepadState(0b1010_0000);
    assert_eq!(now.newly_pressed(prev), GamepadState(0b0101_0000));
    assert_eq!(now.newly_pressed(now), GamepadState(0));
}

#[test]
fn sprite_wraps_its_data_and_size() {
    let data = [0u8; 49];
    let sprite = TwoBppSprite::new(&data, 14, 14);
    assert_eq!(sprite.width, 14);
    assert_eq!(sprite.height, 14);
    assert_eq!(sprite.data.len(), 49);
}

#[test]
fn draw_colors_are_distinct() {
    assert_ne!(DrawColor::Transparent, DrawColor::One);
    assert_ne!(DrawColor::Three, DrawColor::Four);
}

#[test]
fn bitboard_algebra_on_squares() {
    let a = Square::new(File::C, Rank::Third).bitboard();
    let b = Square::new(File::F, Rank::Sixth).bitboard();
    let u = a.union(b);
    assert_eq!(u.popcnt(), 2);
    assert_eq!(u.intersect(a), a);
    assert!(u.complement().has(Square::new(File::A, Rank::First)));
    assert!(!u.complement().has(Square::new(File::C, Rank::Third)));
    let squares = u.squares();
    assert_eq!(squares.len(), 2);
    assert_eq!(squares[0], Square::new(File::C, Rank::Third));
}

#[test]
fn square_names_round_trip_through_parsing() {
    for f in 0..8usize {
        for r in 0..8usize {
            let s = Square::new(File::try_index(f).unwrap(), Rank::try_index(r).unwrap());
            assert_eq!(Square::from_str(&s.name()), Ok(s));
        }
    }
    assert_eq!(Square::new(File::E, Rank::Fourth).name(), "e4");
}
