use rice::common::{
    direction_to_index, BitBoard, CastleRights, Color, Constants, Pieces, ZobristHashes,
    _index_to_direction,
};
use rice::move_encoding::Move;

#[test]
fn castle_rights_have_one_bit_each() {
    assert_eq!(CastleRights::WhiteKing.as_int(), 0b1);
    assert_eq!(CastleRights::WhiteQueen.as_int(), 0b10);
    assert_eq!(CastleRights::BlackKing.as_int(), 0b100);
    assert_eq!(CastleRights::BlackQueen.as_int(), 0b1000);
}

#[test]
fn castle_rights_from_their_bit() {
    for bit in [0b1u8, 0b10, 0b100, 0b1000] {
        assert_eq!(CastleRights::int_to_castle_rights(bit).as_int(), bit);
    }
}

#[test]
fn directions_round_trip() {
    for index in 0..8usize {
        let (file, rank) = _index_to_direction(index);
        assert_eq!(direction_to_index(file, rank), index);
    }
    assert_eq!(direction_to_index(1, 0), 0);
    assert_eq!(direction_to_index(0, 1), 2);
    assert_eq!(direction_to_index(-1, -1), 5);
    assert_eq!(direction_to_index(1, -1), 7);
}

#[test]
fn piece_codes() {
    assert_eq!(Pieces::int_to_piece(0), Pieces::KING);
    assert_eq!(Pieces::int_to_piece(1), Pieces::PAWN);
    assert_eq!(Pieces::int_to_piece(2), Pieces::KNIGHT);
    assert_eq!(Pieces::int_to_piece(3), Pieces::BISHOP);
    assert_eq!(Pieces::int_to_piece(4), Pieces::ROOK);
    assert_eq!(Pieces::int_to_piece(5), Pieces::QUEEN);
    assert_eq!(Pieces::QUEEN.index(), 5);
    assert_eq!(Color::WHITE.index(), 0);
    assert_eq!(Color::BLACK.index(), 1);
}

#[test]
fn piece_letters() {
    assert_eq!(Pieces::parse_ascii('p'), Some(Pieces::PAWN));
    assert_eq!(Pieces::parse_ascii('N'), Some(Pieces::KNIGHT));
    assert_eq!(Pieces::parse_ascii('b'), Some(Pieces::BISHOP));
    assert_eq!(Pieces::parse_ascii('R'), Some(Pieces::ROOK));
    assert_eq!(Pieces::parse_ascii('q'), Some(Pieces::QUEEN));
    assert_eq!(Pieces::parse_ascii('K'), Some(Pieces::KING));
    assert_eq!(Pieces::parse_ascii('x'), None);
    assert_eq!(Pieces::parse_ascii('1'), None);
}

#[test]
fn other_colour() {
    assert_eq!(!Color::WHITE, Color::BLACK);
    assert_eq!(!Color::BLACK, Color::WHITE);
}

#[test]
fn constants_of_the_tables() {
    assert_eq!(Constants::BOTH_OCCUPANCIES, 2);
    assert_eq!(Constants::_BISHOP, 0);
    assert_eq!(Constants::_ROOK, 1);
    assert_eq!(Constants::MOVE_DATA_FILE_NAME, "move_data.json");
    assert_eq!(Constants::HASHES_FILE_NAME, "hashes.json");
}

#[test]
fn blank_keys_have_their_shape() {
    let keys = ZobristHashes::new();
    assert!(keys.well_formed());
    assert_eq!(keys.pieces.len(), 12);
    assert!(keys.pieces.iter().all(|row| row.len() == 64 && row.iter().all(|k| *k == 0)));
    assert_eq!(keys.castle_rights.len(), 16);
    assert_eq!(keys.en_passant_file.len(), 8);
    assert_eq!(keys.side, 0);
}

#[test]
fn keys_of_wrong_shape_are_refused() {
    let mut keys = ZobristHashes::new();
    keys.castle_rights.pop();
    assert!(!keys.well_formed());
    let mut keys = ZobristHashes::new();
    keys.pieces[3].push(0);
    assert!(!keys.well_formed());
}

#[test]
fn encode_keeps_every_field() {
    let m = Move {
        source_square: 52,
        target_square: 36,
        piece_moved: Pieces::PAWN,
        promoted_piece: None,
        capture: None,
        double_push: true,
        en_passant: false,
        castle: false,
    }
    .encode();
    assert_eq!(m.source_square(), 52);
    assert_eq!(m.target_square(), 36);
    assert_eq!(m.piece_moved(), Pieces::PAWN);
    assert_eq!(m.promoted_piece(), None);
    assert_eq!(m.capture(), None);
    assert!(m.double_push());
    assert!(!m.en_passant());
    assert!(!m.castle());
}

#[test]
fn encode_keeps_capture_promotion_and_flags() {
    let m = Move {
        source_square: 9,
        target_square: 0,
        piece_moved: Pieces::PAWN,
        promoted_piece: Some(Pieces::KNIGHT),
        capture: Some(Pieces::ROOK),
        double_push: false,
        en_passant: true,
        castle: true,
    }
    .encode();
    assert_eq!(m.source_square(), 9);
    assert_eq!(m.target_square(), 0);
    assert_eq!(m.promoted_piece(), Some(Pieces::KNIGHT));
    assert_eq!(m.capture(), Some(Pieces::ROOK));
    assert!(!m.double_push());
    assert!(m.en_passant());
    assert!(m.castle());
}

#[test]
fn encode_round_trips_all_squares_and_pieces() {
    let kinds = [
        Pieces::KING,
        Pieces::PAWN,
        Pieces::KNIGHT,
        Pieces::BISHOP,
        Pieces::ROOK,
        Pieces::QUEEN,
    ];
    for source in [0u8, 1, 31, 63] {
        for target in [0u8, 17, 62, 63] {
            for piece in kinds {
                for capture in [None, Some(Pieces::KING), Some(Pieces::QUEEN)] {
                    let m = Move {
                        source_square: source,
                        target_square: target,
                        piece_moved: piece,
                        promoted_piece: Some(Pieces::QUEEN),
                        capture,
                        double_push: false,
                        en_passant: false,
                        castle: false,
                    }
                    .encode();
                    assert_eq!(m.source_square(), source);
                    assert_eq!(m.target_square(), target);
                    assert_eq!(m.piece_moved(), piece);
                    assert_eq!(m.capture(), capture);
                    assert_eq!(m.promoted_piece(), Some(Pieces::QUEEN));
                }
            }
        }
    }
}

#[test]
fn move_as_text() {
    let m = Move {
        source_square: 52,
        target_square: 36,
        piece_moved: Pieces::PAWN,
        promoted_piece: None,
        capture: None,
        double_push: true,
        en_passant: false,
        castle: false,
    }
    .encode();
    assert_eq!(m.to_string(), "e2e4");
    let promotion = Move {
        source_square: 8,
        target_square: 0,
        piece_moved: Pieces::PAWN,
        promoted_piece: Some(Pieces::QUEEN),
        capture: None,
        double_push: false,
        en_passant: false,
        castle: false,
    }
    .encode();
    assert_eq!(promotion.to_string(), "a7a8q");
    let under = Move {
        source_square: 55,
        target_square: 63,
        piece_moved: Pieces::PAWN,
        promoted_piece: Some(Pieces::KNIGHT),
        capture: None,
        double_push: false,
        en_passant: false,
        castle: false,
    }
    .encode();
    assert_eq!(under.to_string(), "h2h1n");
}

#[test]
fn board_value_is_public() {
    assert_eq!(BitBoard(5).0, 5);
}
