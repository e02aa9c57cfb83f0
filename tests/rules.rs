use fchess::chess_data::ChessTables;
use fchess::engine::{evaluate, get_best_move, negamax, LARGE_VALUE_SAFE};
use fchess::fen::{fen_parser, FenError};
use fchess::structs::{Board, BoardState, ChessMove, Color, MoveType};

fn moves_of(board: &Board, tables: &ChessTables) -> Vec<ChessMove> {
    board
        .get_all_legal_moves(tables)
        .iter()
        .map(|m| ChessMove::unpack(*m))
        .collect()
}

fn has_move(moves: &[ChessMove], origin: u8, destination: u8, move_type: MoveType) -> bool {
    moves
        .iter()
        .any(|m| m.origin == origin && m.destination == destination && m.move_type == move_type)
}

#[test]
fn scholars_mate_is_found() {
    let tables = ChessTables::default();
    let board =
        fen_parser("r1bqkb1r/pppp1ppp/2n2n2/4p2Q/2B1P3/8/PPPP1PPP/RNB1K1NR w KQkq - 4 4").unwrap();
    let mut history = Vec::new();
    let best = ChessMove::unpack(get_best_move(2, board, &mut history, &tables));
    // h5 is square 32, f7 is square 50.
    assert_eq!(best.origin, 32);
    assert_eq!(best.destination, 50);
    assert_eq!(best.move_type, MoveType::Capture);
    let after = board.move_piece(best.pack());
    assert_eq!(after.get_board_state(&tables), BoardState::Checkmate);
    assert!(history.is_empty());
}

#[test]
fn castling_through_attacked_square_is_refused() {
    let tables = ChessTables::default();
    let attacked = fen_parser("5r1k/8/8/8/8/8/8/4K2R w K - 0 1").unwrap();
    assert!(!has_move(&moves_of(&attacked, &tables), 3, 1, MoveType::KingCastle));
    let free = fen_parser("7k/8/8/8/8/8/8/4K2R w K - 0 1").unwrap();
    assert!(has_move(&moves_of(&free, &tables), 3, 1, MoveType::KingCastle));
}

#[test]
fn castling_out_of_check_is_refused() {
    let tables = ChessTables::default();
    let board = fen_parser("4r2k/8/8/8/8/8/8/4K2R w K - 0 1").unwrap();
    assert!(!has_move(&moves_of(&board, &tables), 3, 1, MoveType::KingCastle));
}

#[test]
fn queenside_castling_moves_the_rook() {
    let tables = ChessTables::default();
    let mut board = fen_parser("4k3/8/8/8/8/8/8/R3K3 w Q - 0 1").unwrap();
    board.try_make_move(3, 5, 'q', &tables);
    // The king is on c1 (5), the rook on d1 (4), and white has no rights left.
    assert!(board.bitboards[0][0].get_bit(5));
    assert!(board.bitboards[0][2].get_bit(4));
    assert!(!board.bitboards[0][2].get_bit(7));
    assert!(!board.castling_rights.white_queenside);
    assert_eq!(board.turn, Color::Black);
}

#[test]
fn en_passant_lasts_one_move() {
    let tables = ChessTables::default();
    let mut board = fen_parser("4k3/3p4/8/4P3/8/8/8/4K3 b - - 0 1").unwrap();
    // d7 (52) to d5 (36): the target is d6 (44).
    board.try_make_move(52, 36, 'q', &tables);
    assert_eq!(board.en_passant, Some(44));
    assert!(has_move(&moves_of(&board, &tables), 35, 44, MoveType::EnPassant));
    board.try_make_move(3, 11, 'q', &tables);
    board.try_make_move(59, 51, 'q', &tables);
    assert_eq!(board.en_passant, None);
    assert!(!has_move(&moves_of(&board, &tables), 35, 44, MoveType::EnPassant));
}

#[test]
fn en_passant_capture_removes_the_pawn() {
    let tables = ChessTables::default();
    let mut board = fen_parser("4k3/8/8/3pP3/8/8/8/4K3 w - d6 0 1").unwrap();
    board.try_make_move(35, 44, 'q', &tables);
    assert!(board.bitboards[0][5].get_bit(44));
    assert!(!board.bitboards[1][5].get_bit(36));
}

#[test]
fn seventh_rank_pawn_makes_four_promotions() {
    let tables = ChessTables::default();
    let board = fen_parser("8/4P3/8/8/8/8/k7/4K3 w - - 0 1").unwrap();
    let moves = moves_of(&board, &tables);
    let from_pawn: Vec<&ChessMove> = moves.iter().filter(|m| m.origin == 51).collect();
    assert_eq!(from_pawn.len(), 4);
    for t in [
        MoveType::QueenPromotion,
        MoveType::RookPromotion,
        MoveType::BishopPromotion,
        MoveType::KnightPromotion,
    ] {
        assert!(has_move(&moves, 51, 59, t));
    }
}

#[test]
fn promotion_capture_gives_four_more() {
    let tables = ChessTables::default();
    let board = fen_parser("3r4/4P3/8/8/8/8/k7/4K3 w - - 0 1").unwrap();
    let moves = moves_of(&board, &tables);
    assert_eq!(moves.iter().filter(|m| m.origin == 51).count(), 8);
}

#[test]
fn pinned_piece_stays_on_the_pin() {
    let tables = ChessTables::default();
    let board = fen_parser("4k3/4r3/8/8/8/8/4B3/4K3 w - - 0 1").unwrap();
    assert!(moves_of(&board, &tables).iter().all(|m| m.origin != 11));
}

#[test]
fn king_cannot_take_a_defended_piece() {
    let tables = ChessTables::default();
    let defended = fen_parser("3rk3/8/8/8/8/8/3r4/4K3 w - - 0 1").unwrap();
    assert!(!has_move(&moves_of(&defended, &tables), 3, 12, MoveType::Capture));
    let loose = fen_parser("4k3/8/8/8/8/8/3r4/4K3 w - - 0 1").unwrap();
    assert!(has_move(&moves_of(&loose, &tables), 3, 12, MoveType::Capture));
}

#[test]
fn check_is_reported_from_the_kings_square() {
    let tables = ChessTables::default();
    let checked = fen_parser("4k3/8/8/8/8/8/8/4K2r w - - 0 1").unwrap();
    assert!(checked.is_in_check(&tables));
    assert!(!checked.attackers_to(3, Color::White, &tables).is_empty());
    let quiet = fen_parser("4k3/8/8/8/8/8/8/4K3 w - - 0 1").unwrap();
    assert!(!quiet.is_in_check(&tables));
}

#[test]
fn stalemate_and_checkmate_states() {
    let tables = ChessTables::default();
    let stalemate = fen_parser("7k/5Q2/6K1/8/8/8/8/8 b - - 0 1").unwrap();
    assert_eq!(stalemate.get_board_state(&tables), BoardState::Stalemate);
    let mate = fen_parser("7k/6Q1/6K1/8/8/8/8/8 b - - 0 1").unwrap();
    assert_eq!(mate.get_board_state(&tables), BoardState::Checkmate);
    let start = Board::default();
    assert_eq!(start.get_board_state(&tables), BoardState::OnGoing);
}

#[test]
fn negamax_scores_terminal_positions() {
    let tables = ChessTables::default();
    let mut history = Vec::new();
    let stalemate = fen_parser("7k/5Q2/6K1/8/8/8/8/8 b - - 0 1").unwrap();
    assert_eq!(negamax(0, 2, stalemate, &mut history, -LARGE_VALUE_SAFE, LARGE_VALUE_SAFE, &tables), 0);
    let mate = fen_parser("7k/6Q1/6K1/8/8/8/8/8 b - - 0 1").unwrap();
    assert_eq!(negamax(1, 2, mate, &mut history, -LARGE_VALUE_SAFE, LARGE_VALUE_SAFE, &tables), -LARGE_VALUE_SAFE + 1);
}

#[test]
fn threefold_repetition_scores_zero() {
    let tables = ChessTables::default();
    let board = fen_parser("4k3/8/8/8/8/8/8/3QK3 w - - 0 1").unwrap();
    let mut history = vec![board.bitboards, board.bitboards];
    assert_eq!(negamax(0, 2, board, &mut history, -LARGE_VALUE_SAFE, LARGE_VALUE_SAFE, &tables), 0);
    assert_eq!(history.len(), 2);
    let mut once = vec![board.bitboards];
    assert_eq!(negamax(0, 0, board, &mut once, -LARGE_VALUE_SAFE, LARGE_VALUE_SAFE, &tables), evaluate(&board, &tables));
}

#[test]
fn evaluate_counts_material_and_mobility() {
    let tables = ChessTables::default();
    let board = fen_parser("4k3/8/8/8/8/8/8/3QK3 w - - 0 1").unwrap();
    assert_eq!(evaluate(&board, &tables), 1028);
    let black_to_move = fen_parser("4k3/8/8/8/8/8/8/3QK3 b - - 0 1").unwrap();
    assert_eq!(evaluate(&black_to_move, &tables), -1028);
    let start = Board::default();
    assert_eq!(evaluate(&start, &tables), 0);
}

#[test]
fn make_move_flips_turn_and_keeps_sets_disjoint() {
    let tables = ChessTables::default();
    let board =
        fen_parser("r3k2r/p1ppqpb1/bn2pnp1/3PN3/1p2P3/2N2Q1p/PPPBBPPP/R3K2R w KQkq - ").unwrap();
    for m in board.get_all_legal_moves(&tables) {
        let after = board.move_piece(m);
        assert_eq!(after.turn, Color::Black);
        let mut seen = 0u64;
        for c in 0..2 {
            for k in 0..6 {
                assert_eq!(seen & after.bitboards[c][k].0, 0);
                seen |= after.bitboards[c][k].0;
            }
        }
        let d = ChessMove::unpack(m).destination;
        let holders = (0..2)
            .flat_map(|c| (0..6).map(move |k| (c, k)))
            .filter(|&(c, k)| after.bitboards[c][k].get_bit(d))
            .count();
        assert_eq!(holders, 1);
    }
}

#[test]
fn castling_rights_only_shrink() {
    let tables = ChessTables::default();
    let mut board =
        fen_parser("r3k2r/p1ppqpb1/bn2pnp1/3PN3/1p2P3/2N2Q1p/PPPBBPPP/R3K2R w KQkq - ").unwrap();
    // Ra1-b1 drops the white queenside right; it never comes back.
    board.try_make_move(7, 6, 'q', &tables);
    assert!(!board.castling_rights.white_queenside);
    assert!(board.castling_rights.white_kingside);
    board.try_make_move(56, 57, 'q', &tables);
    assert!(!board.castling_rights.black_kingside);
    board.try_make_move(6, 7, 'q', &tables);
    assert!(!board.castling_rights.white_queenside);
}

#[test]
fn legal_moves_are_pseudo_legal() {
    let tables = ChessTables::default();
    let board = fen_parser("rnbq1k1r/pp1Pbppp/2p5/8/2B5/8/PPP1NnPP/RNBQK2R w KQ - 1 8").unwrap();
    let pseudo = board.get_all_pseudolegal_moves(&tables);
    let legal = board.get_all_legal_moves(&tables);
    assert!(legal.iter().all(|m| pseudo.contains(m)));
    assert_eq!(legal.len(), 44);
    let pinned = fen_parser("4k3/4r3/8/8/8/8/4B3/4K3 w - - 0 1").unwrap();
    let pseudo = pinned.get_all_pseudolegal_moves(&tables);
    let legal = pinned.get_all_legal_moves(&tables);
    assert!(legal.len() < pseudo.len());
    assert!(legal.iter().all(|m| pseudo.contains(m)));
}

#[test]
fn illegal_request_leaves_the_position() {
    let tables = ChessTables::default();
    let mut board = Board::default();
    board.try_make_move(12, 36, 'q', &tables);
    assert_eq!(board.turn, Color::White);
    assert_eq!(board.bitboards, Board::default().bitboards);
}

#[test]
fn fen_errors_name_the_field() {
    assert_eq!(
        fen_parser("rnbqkbnr/pppppppp/8/8/8/8/PPPPPPPP/RNBQKBN w KQkq - 0 1").err(),
        Some(FenError::Placement)
    );
    assert_eq!(
        fen_parser("rnbqkbnr/pppppppp/8/8/8/8/PPPPPPPP/RNBQKBNR x KQkq - 0 1").err(),
        Some(FenError::SideToMove)
    );
    assert_eq!(
        fen_parser("rnbqkbnr/pppppppp/8/8/8/8/PPPPPPPP/RNBQKBNR w KX - 0 1").err(),
        Some(FenError::Castling)
    );
    assert_eq!(
        fen_parser("rnbqkbnr/pppppppp/8/8/8/8/PPPPPPPP/RNBQKBNR w KQkq e4 0 1").err(),
        Some(FenError::EnPassant)
    );
    assert_eq!(fen_parser("8/8/8 w - -").err(), Some(FenError::Placement));
}

#[test]
fn fen_reads_every_field() {
    let board = fen_parser("4k3/8/8/3pP3/8/8/8/4K3 b Kq d6 0 1").unwrap();
    assert_eq!(board.turn, Color::Black);
    assert_eq!(board.en_passant, Some(44));
    assert!(board.castling_rights.white_kingside);
    assert!(!board.castling_rights.white_queenside);
    assert!(board.castling_rights.black_queenside);
    assert!(!board.castling_rights.black_kingside);
    assert_eq!(board.bitboards[0][0].0, 1 << 3);
    assert_eq!(board.bitboards[1][0].0, 1 << 59);
    assert_eq!(board.bitboards[0][5].0, 1 << 35);
    assert_eq!(board.bitboards[1][5].0, 1 << 36);
    let start = fen_parser("rnbqkbnr/pppppppp/8/8/8/8/PPPPPPPP/RNBQKBNR w KQkq - 0 1").unwrap();
    assert_eq!(start.bitboards, Board::default().bitboards);
}

#[test]
fn no_legal_move_gives_no_best_move() {
    let tables = ChessTables::default();
    let stalemate = fen_parser("7k/5Q2/6K1/8/8/8/8/8 b - - 0 1").unwrap();
    let mut history = Vec::new();
    assert_eq!(get_best_move(1, stalemate, &mut history, &tables), 0);
    assert!(stalemate.get_all_legal_moves(&tables).is_empty());
}

#[test]
fn perft_of_depth_zero_is_one() {
    let tables = ChessTables::default();
    assert_eq!(fchess::move_generation::perft(Board::default(), 0, &tables), 1);
}
