use fchess::bitboard::BitBoard;
use fchess::chess_data::{generate_rook_moves, generate_rook_moves_short, ChessTables, RaycastTables};
use fchess::magic_search::{gen_magics, generate_blocker_data, try_magic};
use fchess::magics::raycast_calculate;
use fchess::notation::{human_readable_position, square_from_name, Cell};
use fchess::structs::{Board, ChessMove, Color, MoveType, Pieces};

#[test]
fn pack_layout_and_round_trip() {
    let m = ChessMove { origin: 12, destination: 28, move_type: MoveType::DoublePawnPush };
    assert_eq!(m.pack(), 4 * 4096 + 12 * 64 + 28);
    assert_eq!(ChessMove::unpack(m.pack()), m);
    let promo = ChessMove { origin: 51, destination: 59, move_type: MoveType::KnightPromotion };
    assert_eq!(promo.pack(), 51 * 64 + 59);
    assert_ne!(promo.pack(), 0);
    assert_eq!(ChessMove::unpack(0xffff & 0x9fff).move_type, MoveType::QueenPromotion);
}

#[test]
fn tags_and_kinds_from_numbers() {
    assert_eq!(MoveType::from_u8(0), MoveType::KnightPromotion);
    assert_eq!(MoveType::from_u8(7), MoveType::Capture);
    assert_eq!(MoveType::from_u8(9), MoveType::QueenPromotion);
    assert!(Pieces::from_u8(0) == Pieces::King);
    assert!(Pieces::from_u8(5) == Pieces::Pawn);
    assert!(Pieces::from_u8(6) == Pieces::Empty);
    assert_eq!(Color::White.opposite(), Color::Black);
    assert_eq!(Board::default().other_color(), Color::Black);
}

#[test]
fn bitboard_bits() {
    let mut b = BitBoard(0);
    assert!(b.is_empty());
    b.set_bit(5);
    b.set_bit(63);
    assert!(b.get_bit(5) && b.get_bit(63) && !b.get_bit(6));
    assert_eq!(b.popcnt(), 2);
    assert_eq!(b.get_index_and_pop(), 5);
    b.clear_bit(63);
    assert!(b.is_empty());
    assert_eq!(b.not().0, u64::MAX);
    assert_eq!(BitBoard(0b1100).and(BitBoard(0b1010)).0, 0b1000);
    assert_eq!(BitBoard(0b1100).or(BitBoard(0b1010)).0, 0b1110);
    assert_eq!(BitBoard(0b1100).without(BitBoard(0b1010)).0, 0b0100);
}

#[test]
fn square_names() {
    assert_eq!(human_readable_position(0), "H1");
    assert_eq!(human_readable_position(3), "E1");
    assert_eq!(human_readable_position(63), "A8");
    assert_eq!(human_readable_position(27), "E4");
    assert_eq!(square_from_name(b"e4"), Some(27));
    assert_eq!(square_from_name(b"A8"), Some(63));
    assert_eq!(square_from_name(b"i1"), None);
    assert_eq!(square_from_name(b"e9"), None);
}

#[test]
fn text_picture_of_the_start() {
    let text = Board::default().get_text_representation();
    assert_eq!(text[3], "\u{265a}");
    assert_eq!(text[59], "\u{2654}");
    assert_eq!(text[8], "\u{265f}");
    assert_eq!(text[30], "");
}

#[test]
fn cells_in_printing_order() {
    let cells = BitBoard(1).cells(Some(62));
    assert_eq!(cells[63], Cell::Occupied);
    assert_eq!(cells[1], Cell::Highlighted);
    assert_eq!(cells[0], Cell::Clear);
}

#[test]
fn tables_match_geometry() {
    let tables = ChessTables::default();
    // King on h1 (0): g1, h2, g2.
    assert_eq!(tables.lookup_tables[0][0].0, (1 << 1) | (1 << 8) | (1 << 9));
    // Knight on h1: f2 (10) and g3 (17).
    assert_eq!(tables.lookup_tables[4][0].0, (1 << 10) | (1 << 17));
    // White pawn on e2 (11): push e3 (19), captures d3 (20) and f3 (18), long push e4 (27).
    assert_eq!(tables.lookup_tables[5][11].0, 1 << 19);
    assert_eq!(tables.lookup_tables[6][11].0, (1 << 20) | (1 << 18));
    assert_eq!(tables.lookup_tables[9][11].0, 1 << 27);
    assert_eq!(tables.lookup_tables[10][11].0, 0);
    // Rook relevance mask in a corner has twelve squares.
    assert_eq!(generate_rook_moves_short()[0].popcnt(), 12);
    assert_eq!(generate_rook_moves()[0].popcnt(), 14);
    let rays = RaycastTables::new();
    assert_eq!(rays.north[0], 0x0101010101010100);
}

#[test]
fn magic_lookup_matches_ray_casting() {
    let tables = ChessTables::default();
    let rook_dirs = vec![(0, 1), (1, 0), (-1, 0), (0, -1)];
    let occupancies = [0u64, 0x0000_1000_0010_0000, 0xffff_0000_0000_ffff, 0x0042_0018_2400_8100];
    for square in [0u8, 7, 27, 36, 63] {
        for occ in occupancies {
            let mask = tables.rook.masks[square as usize];
            assert_eq!(
                tables.rook.lookup(square, occ),
                raycast_calculate(square, occ & mask, &rook_dirs)
            );
        }
    }
    // A rook on d4 (28) with blockers on d6 (44) and b4 (30).
    let attacks = raycast_calculate(28, (1 << 44) | (1 << 30), &rook_dirs);
    let expected: u64 = (1 << 36) | (1 << 44) | (1 << 29) | (1 << 30) | (1 << 27) | (1 << 26)
        | (1 << 25) | (1 << 24) | (1 << 20) | (1 << 12) | (1 << 4);
    assert_eq!(attacks, expected);
}

#[test]
fn magic_search_finds_collision_free_multipliers() {
    let masks = generate_rook_moves_short();
    let full = generate_rook_moves();
    let mut mask_words = [0u64; 64];
    let mut full_words = [0u64; 64];
    for i in 0..64 {
        mask_words[i] = masks[i].0;
        full_words[i] = full[i].0;
    }
    let dirs = vec![(0, 1), (1, 0), (-1, 0), (0, -1)];
    let data = generate_blocker_data(mask_words, full_words, &dirs);
    assert_eq!(data.len(), 64);
    assert_eq!(data[0].len(), 4096);
    assert_eq!(data[27].len(), 1024);
    let square_data = vec![data[27].clone()];
    let (magics, tables) = gen_magics(&square_data, 52, 4096, 1_000_000).unwrap();
    for (key, value) in &square_data[0] {
        let slot = (key.wrapping_mul(magics[0]) >> 52) as usize;
        assert_eq!(tables[0][slot], *value);
    }
    // A multiplier of zero sends every key to slot zero.
    assert_eq!(try_magic(&data[27], 0, 52, 4096), None);
}
