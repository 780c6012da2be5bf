use rice::common::{AllMoveData, BitBoard, CastleRights, Color, Constants, Pieces};
use rice::precalculator::{
    compute_move_data, find_magic_number, generate_hashes, generate_magic_candidate,
    get_magic_candidate_part, get_random_number, init_sliders_attacks, keys_from_words,
    mask_attacks_in_direction,
    mask_king_attacks, mask_knight_attacks, mask_occupancy_in_direction, mask_pawn_attacks,
    mask_pawn_moves, mask_sliding_attacks, mask_sliding_occupancy, set_occupancy,
    squares_in_direction, NotFiles,
};

fn tables() -> AllMoveData {
    compute_move_data().unwrap()
}

#[test]
fn generator_of_numbers_is_xorshift() {
    let mut state = 1804289383u32;
    assert_eq!(get_random_number(&mut state), 1741896308);
    assert_eq!(state, 1741896308);
    assert_eq!(get_random_number(&mut state), 321584506);
    assert_eq!(get_random_number(&mut state), 3694591032);
    assert_eq!(get_random_number(&mut state), 1972257248);
    assert_eq!(get_random_number(&mut state), 200407065);
}

#[test]
fn candidate_part_joins_four_numbers() {
    let mut state = 1804289383u32;
    assert_eq!(get_magic_candidate_part(&mut state), 0x41e0fc38fd7a3a74);
    assert_eq!(state, 1972257248);
}

#[test]
fn magic_candidate_joins_three_parts() {
    let mut state = 1804289383u32;
    assert_eq!(generate_magic_candidate(&mut state).0, 0x60800004203010);
    assert_eq!(state, 808955387);
}

#[test]
fn pawn_attacks_by_square() {
    let not_files = NotFiles::new();
    assert_eq!(mask_pawn_attacks(Color::WHITE, 0, &not_files).0, 0);
    assert_eq!(mask_pawn_attacks(Color::BLACK, 0, &not_files).0, 0x200);
    assert_eq!(mask_pawn_attacks(Color::BLACK, 7, &not_files).0, 0x4000);
    assert_eq!(mask_pawn_attacks(Color::WHITE, 27, &not_files).0, 0x140000);
    assert_eq!(mask_pawn_attacks(Color::BLACK, 27, &not_files).0, 0x1400000000);
    assert_eq!(mask_pawn_attacks(Color::WHITE, 56, &not_files).0, 0x2000000000000);
    assert_eq!(mask_pawn_attacks(Color::WHITE, 63, &not_files).0, 0x40000000000000);
    assert_eq!(mask_pawn_attacks(Color::BLACK, 63, &not_files).0, 0);
}

#[test]
fn knight_attacks_by_square() {
    let not_files = NotFiles::new();
    assert_eq!(mask_knight_attacks(0, &not_files).0, 0x20400);
    assert_eq!(mask_knight_attacks(7, &not_files).0, 0x402000);
    assert_eq!(mask_knight_attacks(27, &not_files).0, 0x142200221400);
    assert_eq!(mask_knight_attacks(36, &not_files).0, 0x28440044280000);
    assert_eq!(mask_knight_attacks(56, &not_files).0, 0x4020000000000);
    assert_eq!(mask_knight_attacks(63, &not_files).0, 0x20400000000000);
}

#[test]
fn king_attacks_by_square() {
    let not_files = NotFiles::new();
    assert_eq!(mask_king_attacks(0, &not_files).0, 0x302);
    assert_eq!(mask_king_attacks(7, &not_files).0, 0xc040);
    assert_eq!(mask_king_attacks(27, &not_files).0, 0x1c141c0000);
    assert_eq!(mask_king_attacks(56, &not_files).0, 0x203000000000000);
    assert_eq!(mask_king_attacks(63, &not_files).0, 0x40c0000000000000);
}

#[test]
fn pawn_pushes_by_square() {
    let white_home = BitBoard(0x00FF_0000_0000_0000);
    let black_home = BitBoard(0x0000_0000_0000_FF00);
    assert_eq!(mask_pawn_moves(Color::WHITE, 52, white_home, black_home).0, (1 << 44) | (1 << 36));
    assert_eq!(mask_pawn_moves(Color::WHITE, 44, white_home, black_home).0, 1 << 36);
    assert_eq!(mask_pawn_moves(Color::WHITE, 3, white_home, black_home).0, 0);
    assert_eq!(mask_pawn_moves(Color::BLACK, 12, white_home, black_home).0, (1 << 20) | (1 << 28));
    assert_eq!(mask_pawn_moves(Color::BLACK, 20, white_home, black_home).0, 1 << 28);
    assert_eq!(mask_pawn_moves(Color::BLACK, 60, white_home, black_home).0, 0);
}

#[test]
fn rays_run_to_the_edge() {
    assert_eq!(squares_in_direction(27, 1, 0).0, 0xf0000000);
    assert_eq!(squares_in_direction(27, -1, -1).0, 0x40201);
    assert_eq!(squares_in_direction(0, -1, 0).0, 0);
    assert_eq!(squares_in_direction(63, 0, -1).0, 0x0080_8080_8080_8080);
}

#[test]
fn relevance_masks_leave_out_the_edges() {
    assert_eq!(mask_sliding_occupancy(0, Constants::_ROOK).0, 0x101010101017e);
    assert_eq!(mask_sliding_occupancy(27, Constants::_ROOK).0, 0x8080876080800);
    assert_eq!(mask_sliding_occupancy(63, Constants::_ROOK).0, 0x7e80808080808000);
    assert_eq!(mask_sliding_occupancy(0, Constants::_BISHOP).0, 0x40201008040200);
    assert_eq!(mask_sliding_occupancy(27, Constants::_BISHOP).0, 0x40221400142200);
    assert_eq!(mask_occupancy_in_direction(3, 3, 1, 0).0, 0x70000000);
    assert_eq!(mask_occupancy_in_direction(0, 0, 1, 1).0, 0x40201008040200);
}

#[test]
fn sliders_stop_at_the_first_blocker() {
    let blockers = BitBoard((1 << 19) | (1 << 29) | (1 << 59));
    assert_eq!(mask_sliding_attacks(27, Constants::_ROOK, &blockers).0, 0x808080837080000);
    let blockers = BitBoard((1 << 9) | (1 << 45));
    assert_eq!(mask_sliding_attacks(27, Constants::_BISHOP, &blockers).0, 0x1221400142240);
    assert_eq!(mask_attacks_in_direction(3, 3, 1, 0, &BitBoard(1 << 29)).0, (1 << 28) | (1 << 29));
    assert_eq!(mask_attacks_in_direction(3, 3, 1, 0, &BitBoard(0)).0, 0xf0000000);
}

#[test]
fn occupancy_is_selected_by_index() {
    let mask = BitBoard(0x101010101017e);
    assert_eq!(set_occupancy(0, 12, &mask).0, 0);
    assert_eq!(set_occupancy(5, 12, &mask).0, 0xa);
    assert_eq!(set_occupancy(4095, 12, &mask).0, 0x101010101017e);
    assert_eq!(set_occupancy(1, 1, &mask).0, 0x2);
}

#[test]
fn a_found_magic_has_no_bad_collision() {
    let mut state = 1804289383u32;
    let square = 0u8;
    let bits = 12u8;
    let magic = find_magic_number(square, bits, Constants::_ROOK, &mut state).unwrap();
    let mask = mask_sliding_occupancy(square, Constants::_ROOK);
    let mut seen: Vec<Option<u64>> = vec![None; 4096];
    for index in 0..4096u64 {
        let occupancy = set_occupancy(index, bits, &mask);
        let attacks = mask_sliding_attacks(square, Constants::_ROOK, &occupancy).0;
        let slot = (occupancy.0.wrapping_mul(magic.0) >> (64 - bits)) as usize;
        match seen[slot] {
            None => seen[slot] = Some(attacks),
            Some(earlier) => assert_eq!(earlier, attacks),
        }
    }
}

#[test]
fn magic_search_is_repeatable() {
    let mut first = 1804289383u32;
    let mut second = 1804289383u32;
    let a = find_magic_number(27, 9, Constants::_BISHOP, &mut first).unwrap();
    let b = find_magic_number(27, 9, Constants::_BISHOP, &mut second).unwrap();
    assert_eq!(a.0, b.0);
    assert_eq!(first, second);
}

#[test]
fn filling_keeps_the_other_table() {
    let mut state = 1804289383u32;
    let bits: Vec<u8> = (0..64u8)
        .map(|square| mask_sliding_occupancy(square, Constants::_BISHOP).count_bits())
        .collect();
    let magics: Vec<BitBoard> = (0..64u8)
        .map(|square| {
            find_magic_number(square, bits[square as usize], Constants::_BISHOP, &mut state)
                .unwrap()
        })
        .collect();
    let mut bishop_masks = vec![BitBoard::new(); 64];
    let mut rook_masks = vec![BitBoard::new(); 64];
    let mut bishop_attacks = vec![vec![BitBoard::new(); 512]; 64];
    let mut rook_attacks = vec![vec![BitBoard(7); 4096]; 64];
    init_sliders_attacks(
        Constants::_BISHOP,
        &mut bishop_masks,
        &mut rook_masks,
        &mut bishop_attacks,
        &mut rook_attacks,
        &magics,
        &bits,
    );
    assert!(rook_attacks.iter().all(|row| row.iter().all(|entry| entry.0 == 7)));
    assert_eq!(bishop_masks[27].0, 0x40221400142200);
    assert_eq!(rook_masks[27].0, 0x8080876080800);
    let occupancy = BitBoard((1 << 9) | (1 << 45));
    let slot = (occupancy.0.wrapping_mul(magics[27].0) >> (64 - bits[27])) as usize;
    assert_eq!(bishop_attacks[27][slot].0, 0x1221400142240);
}

#[test]
fn lookup_is_ray_walk_for_every_subset() {
    let data = tables();
    for piece in [Constants::_BISHOP, Constants::_ROOK] {
        let table = if piece == Constants::_BISHOP {
            data.bishop_attack_data()
        } else {
            data.rook_attack_data()
        };
        for square in 0..64u8 {
            let mask = mask_sliding_occupancy(square, piece);
            assert_eq!(table.masks()[square as usize].0, mask.0);
            let bits = mask.count_bits();
            assert_eq!(table.relevant_bits()[square as usize], bits);
            for index in 0..(1u64 << bits) {
                let occupancy = set_occupancy(index, bits, &mask);
                assert_eq!(
                    table.get_attack(square, &occupancy).0,
                    mask_sliding_attacks(square, piece, &occupancy).0
                );
            }
        }
    }
}

#[test]
fn lookup_ignores_squares_off_the_mask() {
    let data = tables();
    let occupancy = BitBoard(0xFFFF_0000_0000_FFFF);
    for square in [0u8, 27, 36, 63] {
        assert_eq!(
            data.get_attacks(square, &Pieces::ROOK, Color::WHITE, &occupancy).0,
            mask_sliding_attacks(square, Constants::_ROOK, &occupancy).0
        );
        assert_eq!(
            data.get_attacks(square, &Pieces::BISHOP, Color::WHITE, &occupancy).0,
            mask_sliding_attacks(square, Constants::_BISHOP, &occupancy).0
        );
        assert_eq!(
            data.get_attacks(square, &Pieces::QUEEN, Color::BLACK, &occupancy).0,
            mask_sliding_attacks(square, Constants::_ROOK, &occupancy).0
                | mask_sliding_attacks(square, Constants::_BISHOP, &occupancy).0
        );
    }
}

#[test]
fn computed_tables_are_well_formed() {
    let data = tables();
    assert!(data.well_formed());
    assert!(data.bishop_attack_data().well_formed());
    assert!(data.rook_attack_data().well_formed());
    assert!(data.leaping_attack_data().well_formed());
    assert_eq!(data.directions().len(), 8);
    assert_eq!(data.bishop_attack_data().attacks().len(), 64);
    assert_eq!(data.rook_attack_data().magic_numbers().len(), 64);
}

#[test]
fn computed_tables_are_repeatable() {
    let first = tables();
    let second = tables();
    for square in 0..64usize {
        assert_eq!(
            first.rook_attack_data().magic_numbers()[square].0,
            second.rook_attack_data().magic_numbers()[square].0
        );
        assert_eq!(
            first.bishop_attack_data().magic_numbers()[square].0,
            second.bishop_attack_data().magic_numbers()[square].0
        );
    }
}

#[test]
fn leaper_tables_hold_the_attack_sets() {
    let data = tables();
    let empty = BitBoard(0);
    assert_eq!(data.get_attacks(27, &Pieces::KNIGHT, Color::WHITE, &empty).0, 0x142200221400);
    assert_eq!(data.get_attacks(0, &Pieces::KING, Color::BLACK, &empty).0, 0x302);
    assert_eq!(data.get_attacks(27, &Pieces::PAWN, Color::WHITE, &empty).0, 0x140000);
    assert_eq!(data.get_attacks(27, &Pieces::PAWN, Color::BLACK, &empty).0, 0x1400000000);
    assert_eq!(data.get_pawn_moves(52, Color::WHITE).0, (1 << 44) | (1 << 36));
    assert_eq!(data.get_pawn_moves(12, Color::BLACK).0, (1 << 20) | (1 << 28));
}

#[test]
fn rank_masks() {
    let data = tables();
    assert_eq!(data.get_promotion_ranks(Color::WHITE).0, 0xFF);
    assert_eq!(data.get_promotion_ranks(Color::BLACK).0, 0xFF00_0000_0000_0000);
    assert_eq!(data.get_pawn_single_push_ranks(Color::WHITE).0, 0x0000_FF00_0000_0000);
    assert_eq!(data.get_pawn_single_push_ranks(Color::BLACK).0, 0x0000_0000_00FF_0000);
    assert_eq!(data.get_pawn_double_push_ranks(Color::WHITE).0, 0x0000_00FF_0000_0000);
    assert_eq!(data.get_pawn_double_push_ranks(Color::BLACK).0, 0x0000_0000_FF00_0000);
}

#[test]
fn directions_and_squares_between() {
    let data = tables();
    assert_eq!(data.get_direction(27, 1, 0).0, 0xf0000000);
    assert_eq!(data.get_direction(27, -1, -1).0, 0x40201);
    assert_eq!(data.squares_between(60, 63).0, (1 << 61) | (1 << 62));
    assert_eq!(data.squares_between(63, 60).0, (1 << 61) | (1 << 62));
    assert_eq!(data.squares_between(0, 27).0, (1 << 9) | (1 << 18));
    assert_eq!(data.squares_between(4, 4).0, 0);
    assert_eq!(data.squares_between(0, 1).0, 0);
    assert_eq!(data.squares_between(0, 10).0, 0);
    assert_eq!(data.squares_between(4, 60).0, 0x0010_1010_1010_1000);
}

#[test]
fn castle_geometry() {
    let data = tables();
    assert_eq!(
        data.get_castle_info(CastleRights::WhiteKing, Color::WHITE),
        Some((62, BitBoard((1 << 62) | (1 << 61))))
    );
    assert_eq!(
        data.get_castle_info(CastleRights::WhiteQueen, Color::WHITE),
        Some((58, BitBoard((1 << 59) | (1 << 58))))
    );
    assert_eq!(
        data.get_castle_info(CastleRights::BlackKing, Color::BLACK),
        Some((6, BitBoard((1 << 5) | (1 << 6))))
    );
    assert_eq!(
        data.get_castle_info(CastleRights::BlackQueen, Color::BLACK),
        Some((2, BitBoard((1 << 2) | (1 << 3))))
    );
    assert_eq!(data.get_castle_info(CastleRights::WhiteKing, Color::BLACK), None);
    assert_eq!(data.get_castle_info(CastleRights::BlackQueen, Color::WHITE), None);
}

#[test]
fn random_keys_have_their_shape() {
    let keys = generate_hashes();
    assert!(keys.well_formed());
    let mut distinct = std::collections::HashSet::new();
    for row in &keys.pieces {
        for key in row {
            distinct.insert(*key);
        }
    }
    assert!(distinct.len() > 700);
}

#[test]
fn keys_are_made_of_the_words_in_their_order() {
    let mut words = [0u64; 793];
    for (i, word) in words.iter_mut().enumerate() {
        *word = 3 * i as u64 + 1;
    }
    let keys = keys_from_words(&words);
    assert!(keys.well_formed());
    assert_eq!(keys.pieces[0][0], 1);
    assert_eq!(keys.pieces[0][63], 3 * 63 + 1);
    assert_eq!(keys.pieces[2][5], 3 * (2 * 64 + 5) + 1);
    assert_eq!(keys.pieces[11][63], 3 * 767 + 1);
    assert_eq!(keys.side, 3 * 768 + 1);
    assert_eq!(keys.en_passant_file[0], 3 * 769 + 1);
    assert_eq!(keys.en_passant_file[7], 3 * 776 + 1);
    assert_eq!(keys.castle_rights[0], 3 * 777 + 1);
    assert_eq!(keys.castle_rights[15], 3 * 792 + 1);
}
