use shrine::board::{initialize_board, other, Move, Side};
use shrine::evaluate::evaluate;
use shrine::generate_moves::generate_moves;
use shrine::move_piece::{move_piece, MoveError};
use shrine::notation::{handle_move, index_to_square, square_to_index};
use shrine::search::{generate_legal_moves, in_check, minimax, search, MATE};

fn bit(sq: u8) -> u64 {
    1u64 << sq
}

fn empty() -> [u64; 12] {
    [0; 12]
}

fn friends(boards: &[u64; 12], side: Side) -> u64 {
    let o = if side == Side::White { 0 } else { 6 };
    (o..o + 6).fold(0, |acc, i| acc | boards[i])
}

fn play(boards: &mut [u64; 12], text: &str) {
    let mut ep = None;
    assert_eq!(handle_move(boards, text, &mut ep), Ok(()));
}

#[test]
fn start_position_has_twenty_legal_moves() {
    let boards = initialize_board();
    let moves = generate_legal_moves(&boards, Side::White);
    assert_eq!(moves.len(), 20);
    let pawn_moves = moves.iter().filter(|m| boards[0] & bit(m.0) != 0).count();
    let knight_moves = moves.iter().filter(|m| boards[1] & bit(m.0) != 0).count();
    assert_eq!(pawn_moves, 16);
    assert_eq!(knight_moves, 4);
    assert_eq!(generate_legal_moves(&boards, Side::Black).len(), 20);
}

#[test]
fn lone_king_on_edges_stays_on_board() {
    for (sq, expected) in [(0u8, 3usize), (7, 3), (56, 3), (63, 3), (31, 5), (32, 5), (4, 5), (60, 5)] {
        let mut boards = empty();
        boards[5] = bit(sq);
        let moves = generate_moves(&boards, Side::White);
        assert_eq!(moves.len(), expected, "king on {}", sq);
        for m in &moves {
            assert!(m.1 < 64);
            let df = (m.0 as i32 % 8 - m.1 as i32 % 8).abs();
            let dr = (m.0 as i32 / 8 - m.1 as i32 / 8).abs();
            assert!(df <= 1 && dr <= 1, "king step {:?}", m);
        }
    }
}

#[test]
fn lone_king_on_h_file_does_not_wrap() {
    let mut boards = empty();
    boards[5] = bit(31);
    let mut targets: Vec<u8> = generate_moves(&boards, Side::White).iter().map(|m| m.1).collect();
    targets.sort();
    assert_eq!(targets, vec![22, 23, 30, 38, 39]);
}

#[test]
fn depth_one_search_takes_free_capture() {
    let mut boards = empty();
    boards[5] = bit(7);
    boards[3] = bit(0);
    boards[11] = bit(63);
    boards[7] = bit(32);
    let before = evaluate(&boards);
    assert_eq!(before, 2);
    let (m, score) = search(&boards, Side::White, 1).unwrap();
    assert_eq!(m, (0, 32, None));
    assert_eq!(score, before + 3);
}

#[test]
fn generated_moves_start_on_own_piece_and_avoid_own_pieces() {
    let mut boards = initialize_board();
    play(&mut boards, "e2e4");
    play(&mut boards, "d7d5");
    for side in [Side::White, Side::Black] {
        let own = friends(&boards, side);
        for m in generate_moves(&boards, side) {
            assert!(own & bit(m.0) != 0);
            assert!(own & bit(m.1) == 0);
        }
    }
}

#[test]
fn move_and_reverse_restore_board() {
    let start = initialize_board();
    for (from, to) in [(12u8, 28u8), (1, 18), (57, 42), (52, 36)] {
        let mut boards = start;
        let mut ep = None;
        assert_eq!(move_piece(&mut boards, (from, to, None), &mut ep), Ok(()));
        assert_ne!(boards, start);
        assert_eq!(move_piece(&mut boards, (to, from, None), &mut ep), Ok(()));
        assert_eq!(boards, start);
    }
}

#[test]
fn promotion_fans_out_into_four_moves() {
    let mut boards = empty();
    boards[0] = bit(48);
    boards[5] = bit(0);
    boards[7] = bit(57);
    boards[11] = bit(63);
    let moves: Vec<Move> = generate_moves(&boards, Side::White).into_iter().filter(|m| m.0 == 48).collect();
    assert_eq!(
        moves,
        vec![
            (48, 56, Some('q')),
            (48, 56, Some('r')),
            (48, 56, Some('b')),
            (48, 56, Some('n')),
            (48, 57, Some('q')),
            (48, 57, Some('r')),
            (48, 57, Some('b')),
            (48, 57, Some('n')),
        ]
    );
    for (letter, kind) in [('q', 4usize), ('r', 3), ('b', 2), ('n', 1)] {
        let mut after = boards;
        let mut ep = None;
        assert_eq!(move_piece(&mut after, (48, 57, Some(letter)), &mut ep), Ok(()));
        assert_eq!(after[0], 0);
        for i in 0..12 {
            assert_eq!(after[i] & bit(57) != 0, i == kind, "bitboard {}", i);
        }
    }
}

#[test]
fn black_promotion_lands_on_first_rank() {
    let mut boards = empty();
    boards[6] = bit(10);
    boards[11] = bit(63);
    boards[5] = bit(31);
    let moves: Vec<Move> = generate_moves(&boards, Side::Black).into_iter().filter(|m| m.0 == 10).collect();
    assert_eq!(moves.len(), 4);
    assert!(moves.iter().all(|m| m.1 == 2 && m.2.is_some()));
    let mut ep = None;
    assert_eq!(move_piece(&mut boards, (10, 2, Some('q')), &mut ep), Ok(()));
    assert_eq!(boards[6], 0);
    assert_eq!(boards[10], bit(2));
}

#[test]
fn legal_moves_never_leave_king_attacked() {
    let mut boards = empty();
    boards[5] = bit(4);
    boards[3] = bit(12);
    boards[9] = bit(60);
    boards[11] = bit(63);
    boards[8] = bit(31);
    let legal = generate_legal_moves(&boards, Side::White);
    assert!(!legal.is_empty());
    for m in &legal {
        let mut after = boards;
        let mut ep = None;
        move_piece(&mut after, *m, &mut ep).unwrap();
        let king = after[5];
        for reply in generate_moves(&after, Side::Black) {
            assert!(king & bit(reply.1) == 0, "{:?} leaves the king attacked", m);
        }
    }
    assert!(legal.iter().filter(|m| m.0 == 12).all(|m| m.1 % 8 == 4));
    assert!(legal.len() < generate_moves(&boards, Side::White).len());
}

#[test]
fn evaluation_negates_under_side_swap() {
    let mut boards = initialize_board();
    assert_eq!(evaluate(&boards), 0);
    boards[10] = 0;
    boards[0] &= !bit(8);
    boards[7] = 0;
    let score = evaluate(&boards);
    assert_eq!(score, 9 + 6 - 1);
    let mut swapped = [0u64; 12];
    for i in 0..6 {
        swapped[i] = boards[i + 6];
        swapped[i + 6] = boards[i];
    }
    assert_eq!(evaluate(&swapped), -score);
}

#[test]
fn evaluation_weights_each_kind() {
    let mut boards = empty();
    boards[0] = bit(8) | bit(9);
    boards[1] = bit(1);
    boards[2] = bit(2);
    boards[3] = bit(3);
    boards[4] = bit(4);
    boards[5] = bit(5);
    boards[11] = bit(60);
    assert_eq!(evaluate(&boards), 2 + 3 + 3 + 5 + 9);
}

#[test]
fn search_is_deterministic() {
    let mut boards = initialize_board();
    play(&mut boards, "e2e4");
    let first = search(&boards, Side::Black, 2);
    let second = search(&boards, Side::Black, 2);
    assert!(first.is_some());
    assert_eq!(first, second);
    assert_eq!(minimax(&boards, Side::Black, 2), minimax(&boards, Side::Black, 2));
    assert_eq!(first.unwrap().1, minimax(&boards, Side::Black, 2));
}

#[test]
fn search_at_depth_zero_selects_nothing() {
    let boards = initialize_board();
    assert_eq!(search(&boards, Side::White, 0), None);
    assert_eq!(minimax(&boards, Side::White, 0), 0);
}

#[test]
fn checkmate_scores_mate_plus_depth() {
    let mut boards = initialize_board();
    for text in ["f2f3", "e7e5", "g2g4", "d8h4"] {
        play(&mut boards, text);
    }
    assert!(in_check(&boards, Side::White));
    assert!(generate_legal_moves(&boards, Side::White).is_empty());
    assert_eq!(minimax(&boards, Side::White, 1), -(MATE + 1));
    assert_eq!(minimax(&boards, Side::White, 3), -(MATE + 3));
    assert_eq!(search(&boards, Side::White, 2), None);
    assert_eq!(minimax(&boards, Side::Black, 0), 0);
}

#[test]
fn stalemate_scores_zero() {
    let mut boards = empty();
    boards[11] = bit(56);
    boards[4] = bit(41);
    boards[5] = bit(7);
    boards[6] = bit(40);
    boards[0] = bit(32);
    assert!(!in_check(&boards, Side::Black));
    assert!(generate_legal_moves(&boards, Side::Black).is_empty());
    assert_eq!(minimax(&boards, Side::Black, 2), 0);
}

#[test]
fn sliding_pieces_stop_at_board_edges() {
    let mut boards = empty();
    boards[3] = bit(7);
    assert_eq!(generate_moves(&boards, Side::White).len(), 14);
    let mut boards = empty();
    boards[2] = bit(23);
    let mut targets: Vec<u8> = generate_moves(&boards, Side::White).iter().map(|m| m.1).collect();
    targets.sort();
    assert_eq!(targets, vec![5, 14, 30, 37, 44, 51, 58]);
    let mut boards = empty();
    boards[4] = bit(24);
    let moves = generate_moves(&boards, Side::White);
    assert_eq!(moves.len(), 21);
    assert!(!moves.iter().any(|m| m.1 == 23 || m.1 == 15));
}

#[test]
fn sliders_stop_at_pieces() {
    let mut boards = empty();
    boards[3] = bit(0);
    boards[0] = bit(16);
    boards[7] = bit(3);
    let targets: Vec<u8> = generate_moves(&boards, Side::White)
        .into_iter()
        .filter(|m| m.0 == 0)
        .map(|m| m.1)
        .collect();
    assert_eq!(targets, vec![1, 2, 3, 8]);
}

#[test]
fn knights_do_not_wrap_across_files() {
    let mut boards = empty();
    boards[1] = bit(0);
    let mut targets: Vec<u8> = generate_moves(&boards, Side::White).iter().map(|m| m.1).collect();
    targets.sort();
    assert_eq!(targets, vec![10, 17]);
    let mut boards = empty();
    boards[1] = bit(39);
    let mut targets: Vec<u8> = generate_moves(&boards, Side::White).iter().map(|m| m.1).collect();
    targets.sort();
    assert_eq!(targets, vec![22, 29, 45, 54]);
}

#[test]
fn pawn_double_push_needs_both_squares_empty() {
    let mut boards = empty();
    boards[0] = bit(12);
    boards[6] = bit(28);
    assert_eq!(generate_moves(&boards, Side::White), vec![(12, 20, None)]);
    boards[6] = bit(20);
    assert!(generate_moves(&boards, Side::White).is_empty());
    boards[6] = 0;
    assert_eq!(generate_moves(&boards, Side::White), vec![(12, 20, None), (12, 28, None)]);
}

#[test]
fn pawn_captures_respect_edges() {
    let mut boards = empty();
    boards[0] = bit(8) | bit(15);
    boards[6] = bit(23) | bit(16) | bit(17) | bit(22);
    let moves = generate_moves(&boards, Side::White);
    assert_eq!(moves, vec![(8, 17, None), (15, 22, None)]);
    let mut boards = empty();
    boards[6] = bit(52);
    boards[0] = bit(43) | bit(45);
    let moves = generate_moves(&boards, Side::Black);
    assert_eq!(moves, vec![(52, 44, None), (52, 36, None), (52, 43, None), (52, 45, None)]);
}

#[test]
fn moving_from_empty_square_fails_and_changes_nothing() {
    let start = initialize_board();
    let mut boards = start;
    let mut ep = Some(20);
    assert_eq!(move_piece(&mut boards, (28, 36, None), &mut ep), Err(MoveError::EmptySquare));
    assert_eq!(boards, start);
    assert_eq!(ep, Some(20));
}

#[test]
fn capture_removes_the_captured_piece() {
    let mut boards = initialize_board();
    let mut ep = None;
    move_piece(&mut boards, (3, 59, None), &mut ep).unwrap();
    assert_eq!(boards[4], bit(59));
    assert_eq!(boards[10], 0);
    assert_eq!(evaluate(&boards), 9);
}

#[test]
fn en_passant_target_follows_double_pushes() {
    let mut boards = initialize_board();
    let mut ep = None;
    move_piece(&mut boards, (12, 28, None), &mut ep).unwrap();
    assert_eq!(ep, Some(20));
    move_piece(&mut boards, (51, 35, None), &mut ep).unwrap();
    assert_eq!(ep, Some(43));
    move_piece(&mut boards, (6, 21, None), &mut ep).unwrap();
    assert_eq!(ep, None);
    move_piece(&mut boards, (35, 27, None), &mut ep).unwrap();
    assert_eq!(ep, None);
}

#[test]
fn square_names_convert_both_ways() {
    assert_eq!(square_to_index("a1"), Some(0));
    assert_eq!(square_to_index("h8"), Some(63));
    assert_eq!(square_to_index("e4"), Some(28));
    assert_eq!(square_to_index("i1"), None);
    assert_eq!(square_to_index("a9"), None);
    assert_eq!(square_to_index("a"), None);
    assert_eq!(square_to_index("a1b"), None);
    assert_eq!(index_to_square(0), "a1");
    assert_eq!(index_to_square(28), "e4");
    assert_eq!(index_to_square(63), "h8");
    for i in 0..64u8 {
        assert_eq!(square_to_index(&index_to_square(i)), Some(i));
    }
}

#[test]
fn move_text_is_parsed_and_applied() {
    let start = initialize_board();
    let mut boards = start;
    let mut ep = None;
    assert_eq!(handle_move(&mut boards, "e2e4", &mut ep), Ok(()));
    assert_eq!(boards[0] & bit(28), bit(28));
    assert_eq!(ep, Some(20));
    let before = boards;
    assert_eq!(handle_move(&mut boards, "e2e9", &mut ep), Err(MoveError::Malformed));
    assert_eq!(handle_move(&mut boards, "e7e5x", &mut ep), Err(MoveError::Malformed));
    assert_eq!(handle_move(&mut boards, "e7", &mut ep), Err(MoveError::Malformed));
    assert_eq!(handle_move(&mut boards, "e3e5", &mut ep), Err(MoveError::EmptySquare));
    assert_eq!(boards, before);
    let mut boards = empty();
    boards[0] = bit(52);
    assert_eq!(handle_move(&mut boards, "e7e8n", &mut ep), Ok(()));
    assert_eq!(boards[1], bit(60));
    assert_eq!(boards[0], 0);
}

#[test]
fn other_side_alternates() {
    assert_eq!(other(Side::White), Side::Black);
    assert_eq!(other(Side::Black), Side::White);
}
