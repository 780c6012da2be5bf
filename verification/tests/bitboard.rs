use rice::common::BitBoard;

#[test]
fn set_and_get_bit() {
    let mut board = BitBoard::new();
    board.set_bit(12);
    assert!(board.get_bit(12));
    assert!(!board.get_bit(13));
    assert_eq!(board.0, 1u64 << 12);
}

#[test]
fn new_set_is_one_square() {
    assert_eq!(BitBoard::new_set(0).0, 1);
    assert_eq!(BitBoard::new_set(63).0, 1u64 << 63);
}

#[test]
fn pop_bit_reports_and_clears() {
    let mut board = BitBoard(0b1100);
    assert!(board.pop_bit(2));
    assert_eq!(board.0, 0b1000);
    assert!(!board.pop_bit(2));
    assert_eq!(board.0, 0b1000);
}

#[test]
fn move_bit_moves_one_square() {
    let mut board = BitBoard(0b0101);
    board.move_bit(0, 5);
    assert_eq!(board.0, 0b10_0100);
}

#[test]
fn count_bits_counts_members() {
    assert_eq!(BitBoard(0).count_bits(), 0);
    assert_eq!(BitBoard(0xFF).count_bits(), 8);
    assert_eq!(BitBoard(u64::MAX).count_bits(), 64);
    assert_eq!(BitBoard(0x8000_0000_0000_0001).count_bits(), 2);
}

#[test]
fn ls1b_index_is_least_member() {
    assert_eq!(BitBoard(0).ls1b_index(), None);
    assert_eq!(BitBoard(1).ls1b_index(), Some(0));
    assert_eq!(BitBoard(0b1010_0000).ls1b_index(), Some(5));
    assert_eq!(BitBoard(1u64 << 63).ls1b_index(), Some(63));
}

#[test]
fn pop_ls1b_takes_least_member() {
    let mut board = BitBoard(0b1010_0000);
    assert_eq!(board.pop_ls1b(), Some(5));
    assert_eq!(board.pop_ls1b(), Some(7));
    assert_eq!(board.pop_ls1b(), None);
    assert_eq!(board.0, 0);
}

#[test]
fn not_zero_tells_empty_from_nonempty() {
    assert!(!BitBoard(0).not_zero());
    assert!(BitBoard(4).not_zero());
}

#[test]
fn bitwise_operators() {
    let a = BitBoard(0b1100);
    let b = BitBoard(0b1010);
    assert_eq!((a | b).0, 0b1110);
    assert_eq!((a & b).0, 0b1000);
    assert_eq!((!a).0, !0b1100u64);
    assert_eq!((a << 2).0, 0b11_0000);
    assert_eq!((a >> 2).0, 0b11);
}

#[test]
fn arithmetic_operators_wrap() {
    assert_eq!((-BitBoard(1)).0, u64::MAX);
    assert_eq!((-BitBoard(0)).0, 0);
    assert_eq!((BitBoard(0) - 1).0, u64::MAX);
    assert_eq!((BitBoard(8) - 1).0, 7);
    assert_eq!((BitBoard(u64::MAX) * BitBoard(2)).0, u64::MAX - 1);
    assert_eq!((BitBoard(3) * BitBoard(5)).0, 15);
}

#[test]
fn assigning_operators() {
    let mut a = BitBoard(0b1100);
    a |= BitBoard(0b0011);
    assert_eq!(a.0, 0b1111);
    a &= BitBoard(0b0110);
    assert_eq!(a.0, 0b0110);
    a *= BitBoard(4);
    assert_eq!(a.0, 0b01_1000);
    a >>= 3;
    assert_eq!(a.0, 0b11);
}

#[test]
fn board_as_text() {
    let text = BitBoard(0x8000_0000_0000_0001).to_string();
    let expected = "\n\nX-------\n--------\n--------\n--------\n--------\n--------\n--------\n-------X\n\n0b1000000000000000000000000000000000000000000000000000000000000001\n0x8000000000000001\n9223372036854775809";
    assert_eq!(text, expected);
}

#[test]
fn empty_board_as_text() {
    let text = BitBoard(0).to_string();
    assert!(text.ends_with("\n\n0b0\n0x0\n0"));
    assert_eq!(text.matches('X').count(), 0);
    assert_eq!(text.matches('-').count(), 64);
}
