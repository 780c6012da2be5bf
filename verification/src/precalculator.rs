//! The one-shot computation of the tables: leaper attacks by shift and mask,
//! rays by walking, relevance masks, the search for magic multipliers and
//! the filling of the sliding-attack tables, and the Zobrist keys.

use crate::bits::{
    bit, lemma_popcount_zero, lemma_without_lowest, lowest, popcount, without_lowest,
};
use crate::common::{
    is_direction, AllMoveData, BitBoard, Color, Constants, LeapingAttackData, SlidingAttackData,
    ZobristHashes, _index_to_direction,
};
use crate::geometry::{
    attack_acc, lemma_slider_attacks_nonzero, on_board, ray, ray_acc, ray_attacks, ray_relevance,
    relevance_acc, relevance_mask, slider_attacks, steps_left,
};
use crate::tables::{word_rows, words};
use vstd::prelude::*;
use vstd::wrapping::u64_specs::wrapping_mul;

verus! {

/// The four masks that keep a shifted square from wrapping round the board:
/// all squares but those of file a, of file h, of files a and b, and of
/// files g and h.
pub struct NotFiles {
    pub a: BitBoard,
    pub h: BitBoard,
    pub ab: BitBoard,
    pub gh: BitBoard,
}

impl NotFiles {
    pub fn new() -> (r: Self)
        ensures
            r.a.0 == 0xFEFE_FEFE_FEFE_FEFEu64,
            r.h.0 == 0x7F7F_7F7F_7F7F_7F7Fu64,
            r.ab.0 == 0xFCFC_FCFC_FCFC_FCFCu64,
            r.gh.0 == 0x3F3F_3F3F_3F3F_3F3Fu64,
    {
        NotFiles {
            a: BitBoard(0xFEFE_FEFE_FEFE_FEFE),
            h: BitBoard(0x7F7F_7F7F_7F7F_7F7F),
            ab: BitBoard(0xFCFC_FCFC_FCFC_FCFC),
            gh: BitBoard(0x3F3F_3F3F_3F3F_3F3F),
        }
    }
}

/// `acc` joined with `piece` shifted down by `by` squares, if the shifted
/// square is on `mask`.
pub open spec fn join_down(acc: u64, piece: u64, by: u8, mask: u64) -> u64 {
    if (piece >> by) & mask != 0 {
        acc | (piece >> by)
    } else {
        acc
    }
}

/// `acc` joined with `piece` shifted up by `by` squares, if the shifted
/// square is on `mask`.
pub open spec fn join_up(acc: u64, piece: u64, by: u8, mask: u64) -> u64 {
    if (piece << by) & mask != 0 {
        acc | (piece << by)
    } else {
        acc
    }
}

/// The one-square word of `index`, as a cleared board with that bit set.
pub open spec fn placed(index: u8) -> u64 {
    0u64 | (1u64 << index)
}

/// The squares that a pawn of `side` on `index` attacks: the two squares
/// diagonally ahead, where the board has them.
pub open spec fn pawn_attack_set(side: Color, index: u8, not_files: NotFiles) -> u64 {
    let p = placed(index);
    match side {
        Color::WHITE => join_down(join_down(0, p, 7, not_files.a.0), p, 9, not_files.h.0),
        Color::BLACK => join_up(join_up(0, p, 7, not_files.h.0), p, 9, not_files.a.0),
    }
}

/// The squares that a knight on `index` attacks.
pub open spec fn knight_attack_set(index: u8, not_files: NotFiles) -> u64 {
    let p = placed(index);
    let a1 = join_down(0, p, 17, not_files.h.0);
    let a2 = join_down(a1, p, 15, not_files.a.0);
    let a3 = join_down(a2, p, 10, not_files.gh.0);
    let a4 = join_down(a3, p, 6, not_files.ab.0);
    let a5 = join_up(a4, p, 17, not_files.a.0);
    let a6 = join_up(a5, p, 15, not_files.h.0);
    let a7 = join_up(a6, p, 10, not_files.ab.0);
    join_up(a7, p, 6, not_files.gh.0)
}

/// The squares that a king on `index` attacks.
pub open spec fn king_attack_set(index: u8, not_files: NotFiles) -> u64 {
    let p = placed(index);
    let all = 0xFFFF_FFFF_FFFF_FFFFu64;
    let a1 = join_down(0, p, 8, all);
    let a2 = join_down(a1, p, 9, not_files.h.0);
    let a3 = join_down(a2, p, 7, not_files.a.0);
    let a4 = join_down(a3, p, 1, not_files.h.0);
    let a5 = join_up(a4, p, 8, all);
    let a6 = join_up(a5, p, 9, not_files.a.0);
    let a7 = join_up(a6, p, 7, not_files.h.0);
    join_up(a7, p, 1, not_files.a.0)
}

/// Where a pawn of `side` on `square` can push to on an empty board: one
/// square ahead, and two if the square is a member of the home rank of its
/// side.
pub open spec fn pawn_push_set(side: Color, square: u8, white_home: u64, black_home: u64) -> u64 {
    match side {
        Color::WHITE => if square < 8 {
            0
        } else if bit(white_home, square) {
            (0u64 | (1u64 << ((square - 8) as u8))) | (1u64 << ((square - 16) as u8))
        } else {
            0u64 | (1u64 << ((square - 8) as u8))
        },
        Color::BLACK => if square >= 56 {
            0
        } else if bit(black_home, square) {
            (0u64 | (1u64 << ((square + 8) as u8))) | (1u64 << ((square + 16) as u8))
        } else {
            0u64 | (1u64 << ((square + 8) as u8))
        },
    }
}

/// The home rank of the white pawns.
pub const WHITE_HOME: u64 = 0x00FF_0000_0000_0000;

/// The home rank of the black pawns.
pub const BLACK_HOME: u64 = 0x0000_0000_0000_FF00;

/// One step of the xorshift generator of 32-bit numbers.
pub open spec fn xorshift(state: u32) -> u32 {
    let a = state ^ (state << 13);
    let b = a ^ (a >> 17);
    b ^ (b << 5)
}

/// The 64-bit word made of the low 16 bits of the next four numbers of the
/// generator, the first lowest.
pub open spec fn candidate_part(state: u32) -> u64 {
    let s1 = xorshift(state);
    let s2 = xorshift(s1);
    let s3 = xorshift(s2);
    let s4 = xorshift(s3);
    ((s1 & 0xFFFF) as u64) | (((s2 & 0xFFFF) as u64) << 16) | (((s3 & 0xFFFF) as u64) << 32) | (((s4
        & 0xFFFF) as u64) << 48)
}

/// The state of the generator after `n` steps.
pub open spec fn advanced(state: u32, n: nat) -> u32
    decreases n,
{
    if n == 0 {
        state
    } else {
        xorshift(advanced(state, (n - 1) as nat))
    }
}

/// A candidate for a magic multiplier: three words of the generator joined
/// by `and`, so that few bits are set.
pub open spec fn magic_candidate(state: u32) -> u64 {
    candidate_part(state) & candidate_part(advanced(state, 4)) & candidate_part(advanced(state, 8))
}

/// `acc` joined with the squares that the bits of `index` from `count` on
/// select among the members of `mask`, least first, up to bit `bits`.
pub open spec fn deposit_acc(acc: u64, index: u64, mask: u64, count: nat, bits: nat) -> u64
    decreases bits - count,
{
    if count >= bits || mask == 0 {
        acc
    } else {
        deposit_acc(
            if index & (1u64 << (count as u64)) != 0 {
                acc | (1u64 << (lowest(mask) as u64))
            } else {
                acc
            },
            index,
            without_lowest(mask),
            count + 1,
            bits,
        )
    }
}

/// The occupancy that `index` selects among the first `bits` members of
/// `mask`: the `i`-th least member is occupied when bit `i` of `index` is
/// set.
pub open spec fn occupancy_of(index: u64, bits: nat, mask: u64) -> u64 {
    deposit_acc(0, index, mask, 0, bits)
}

/// The slot that a multiplier hashes an occupancy to.
pub open spec fn slot_of(occupancy: u64, magic: u64, bits: u8) -> u64 {
    wrapping_mul(occupancy, magic) >> ((64 - bits) as u8)
}

/// Whether `magic` is a magic multiplier for a slider on `square`: two
/// occupancies among those that the indices below `2^bits` select are
/// hashed to one slot only if the slider attacks the same squares under
/// both.
pub open spec fn is_magic(piece: u8, square: u8, bits: u8, magic: u64) -> bool {
    forall|i: u64, j: u64|
        #![trigger occupancy_of(i, bits as nat, relevance_mask(piece, square as int)), occupancy_of(j, bits as nat, relevance_mask(piece, square as int))]
        i < (1u64 << bits) && j < (1u64 << bits) && slot_of(
            occupancy_of(i, bits as nat, relevance_mask(piece, square as int)),
            magic,
            bits,
        ) == slot_of(
            occupancy_of(j, bits as nat, relevance_mask(piece, square as int)),
            magic,
            bits,
        ) ==> slider_attacks(
            piece,
            square as int,
            occupancy_of(i, bits as nat, relevance_mask(piece, square as int)),
        ) == slider_attacks(
            piece,
            square as int,
            occupancy_of(j, bits as nat, relevance_mask(piece, square as int)),
        )
}

/// A 64-bit word from the thread-local generator of the `rand` crate
/// (`rand::thread_rng().gen()`). Nothing is claimed of its value.
#[verifier::external_body]
fn random_word() -> u64 {
    rand::Rng::gen(&mut rand::thread_rng())
}

/// The set of Zobrist keys that is made of 793 words, in the order in
/// which the words are drawn: the 768 piece-square keys row by row, each
/// row square by square; then the side key; then the eight
/// en-passant-file keys; then the sixteen castle-rights keys.
pub open spec fn keys_of(words: Seq<u64>) -> crate::tables::Keys {
    crate::tables::Keys {
        pieces: Seq::new(12, |i: int| Seq::new(64, |j: int| words[i * 64 + j])),
        side: words[768],
        en_passant_file: Seq::new(8, |i: int| words[769 + i]),
        castle_rights: Seq::new(16, |i: int| words[777 + i]),
    }
}

/// The set of Zobrist keys that is made of `words`.
pub fn keys_from_words(words: &[u64; 793]) -> (hashes: ZobristHashes)
    ensures
        hashes@ == keys_of(words@),
        hashes@.wf(),
{
    let mut hashes = ZobristHashes::new();
    let mut piece_index: usize = 0;
    while piece_index < 12
        invariant
            piece_index <= 12,
            hashes@.wf(),
            forall|i: int, j: int|
                0 <= i < piece_index && 0 <= j < 64 ==> hashes@.pieces[i][j] == words@[i * 64 + j],
        decreases 12 - piece_index,
    {
        let mut square_index: usize = 0;
        while square_index < 64
            invariant
                square_index <= 64,
                piece_index < 12,
                hashes@.wf(),
                forall|i: int, j: int|
                    0 <= i < piece_index && 0 <= j < 64 ==> hashes@.pieces[i][j] == words@[i * 64
                        + j],
                forall|j: int|
                    0 <= j < square_index ==> hashes@.pieces[piece_index as int][j]
                        == words@[piece_index * 64 + j],
            decreases 64 - square_index,
        {
            assert(hashes@.pieces[piece_index as int].len() == 64);
            let ghost before = hashes@;
            hashes.pieces[piece_index][square_index] = words[piece_index * 64 + square_index];
            assert forall|i: int| 0 <= i < 12 implies (#[trigger] hashes@.pieces[i]).len()
                == 64 by {
                assert(before.pieces[i].len() == 64);
            }
            assert forall|i: int, j: int| 0 <= i < piece_index && 0 <= j < 64 implies hashes@.pieces[i][j]
                == words@[i * 64 + j] by {
                assert(hashes@.pieces[i] == before.pieces[i]);
            }
            square_index += 1;
        }
        piece_index += 1;
    }
    hashes.side = words[768];
    let mut i: usize = 0;
    while i < 8
        invariant
            i <= 8,
            hashes@.wf(),
            hashes@.side == words@[768],
            forall|a: int, j: int|
                0 <= a < 12 && 0 <= j < 64 ==> hashes@.pieces[a][j] == words@[a * 64 + j],
            forall|k: int| 0 <= k < i ==> hashes@.en_passant_file[k] == words@[769 + k],
        decreases 8 - i,
    {
        hashes.en_passant_file[i] = words[769 + i];
        i += 1;
    }
    let mut i: usize = 0;
    while i < 16
        invariant
            i <= 16,
            hashes@.wf(),
            hashes@.side == words@[768],
            forall|a: int, j: int|
                0 <= a < 12 && 0 <= j < 64 ==> hashes@.pieces[a][j] == words@[a * 64 + j],
            forall|k: int| 0 <= k < 8 ==> hashes@.en_passant_file[k] == words@[769 + k],
            forall|k: int| 0 <= k < i ==> hashes@.castle_rights[k] == words@[777 + k],
        decreases 16 - i,
    {
        hashes.castle_rights[i] = words[777 + i];
        i += 1;
    }
    proof {
        let wanted = keys_of(words@);
        assert forall|a: int| 0 <= a < 12 implies hashes@.pieces[a] =~= wanted.pieces[a] by {
            assert(hashes@.pieces[a].len() == 64);
        }
        assert(hashes@.pieces =~= wanted.pieces);
        assert(hashes@.en_passant_file =~= wanted.en_passant_file);
        assert(hashes@.castle_rights =~= wanted.castle_rights);
    }
    hashes
}

/// A set of Zobrist keys drawn at random: the set that is made of 793
/// words of the generator, drawn one after another.
pub fn generate_hashes() -> (hashes: ZobristHashes)
    ensures
        hashes@.wf(),
{
    let mut words: [u64; 793] = [0; 793];
    let mut i: usize = 0;
    while i < 793
        invariant
            i <= 793,
        decreases 793 - i,
    {
        words[i] = random_word();
        i += 1;
    }
    keys_from_words(&words)
}

pub fn squares_in_direction(square: u8, file_dir: i8, rank_dir: i8) -> (result: BitBoard)
    requires
        square < 64,
        is_direction(file_dir as int, rank_dir as int),
    ensures
        result.0 == ray(square as int, file_dir as int, rank_dir as int),
{
    let mut result = BitBoard::new();
    let mut file: i8 = (square as i8 % 8) + file_dir;
    let mut rank: i8 = (square as i8 / 8) + rank_dir;
    while file >= 0 && file < 8 && rank >= 0 && rank < 8
        invariant
            -1 <= file <= 8,
            -1 <= rank <= 8,
            is_direction(file_dir as int, rank_dir as int),
            ray_acc(result.0, file as int, rank as int, file_dir as int, rank_dir as int) == ray(
                square as int,
                file_dir as int,
                rank_dir as int,
            ),
        decreases steps_left(file as int, rank as int, file_dir as int, rank_dir as int),
    {
        let index = (rank * 8) + file;
        result.set_bit(index as u8);
        file += file_dir;
        rank += rank_dir;
    }
    result
}

pub fn mask_pawn_moves(
    side: Color,
    square: u8,
    white_pawn_starting_file: BitBoard,
    black_pawn_starting_file: BitBoard,
) -> (moves: BitBoard)
    requires
        square < 64,
        white_pawn_starting_file.has(square) ==> square >= 16,
        black_pawn_starting_file.has(square) ==> square < 48,
    ensures
        moves.0 == pawn_push_set(
            side,
            square,
            white_pawn_starting_file.0,
            black_pawn_starting_file.0,
        ),
{
    let mut moves = BitBoard::new();
    if side == Color::WHITE {
        if square < 8 {
            return moves;
        }
        moves.set_bit(square - 8);
        if white_pawn_starting_file.get_bit(square) {
            moves.set_bit(square - 16)
        }
    } else if side == Color::BLACK {
        if square >= 56 {
            return moves;
        }
        moves.set_bit(square + 8);
        if black_pawn_starting_file.get_bit(square) {
            moves.set_bit(square + 16);
        }
    }
    moves
}

pub fn get_random_number(state: &mut u32) -> (number: u32)
    ensures
        number == xorshift(*old(state)),
        *final(state) == number,
{
    let mut number = *state;
    number ^= number << 13;
    number ^= number >> 17;
    number ^= number << 5;
    *state = number;
    number
}

pub fn get_magic_candidate_part(state: &mut u32) -> (part: u64)
    ensures
        part == candidate_part(*old(state)),
        *final(state) == advanced(*old(state), 4),
{
    let n1 = (get_random_number(state) & 0xFFFF) as u64;
    let n2 = (get_random_number(state) & 0xFFFF) as u64;
    let n3 = (get_random_number(state) & 0xFFFF) as u64;
    let n4 = (get_random_number(state) & 0xFFFF) as u64;
    proof {
        reveal_with_fuel(advanced, 5);
    }
    n1 | (n2 << 16) | (n3 << 32) | (n4 << 48)
}

pub fn generate_magic_candidate(state: &mut u32) -> (candidate: BitBoard)
    ensures
        candidate.0 == magic_candidate(*old(state)),
        *final(state) == advanced(*old(state), 12),
{
    let ghost s0 = *state;
    let a = get_magic_candidate_part(state);
    let b = get_magic_candidate_part(state);
    let c = get_magic_candidate_part(state);
    proof {
        lemma_advanced_add(s0, 4, 4);
        lemma_advanced_add(s0, 8, 4);
    }
    BitBoard(a & b & c)
}

/// Advancing the generator by `a` steps and then by `b` steps advances it
/// by `a + b` steps.
pub proof fn lemma_advanced_add(state: u32, a: nat, b: nat)
    ensures
        advanced(advanced(state, a), b) == advanced(state, a + b),
    decreases b,
{
    if b > 0 {
        lemma_advanced_add(state, a, (b - 1) as nat);
    }
}

pub fn mask_pawn_attacks(side: Color, index: u8, not_files: &NotFiles) -> (attacks: BitBoard)
    requires
        index < 64,
    ensures
        attacks.0 == pawn_attack_set(side, index, *not_files),
{
    let mut attacks = BitBoard::new();
    let mut piece_position = BitBoard::new();
    piece_position.set_bit(index);

    if side == Color::WHITE {
        if ((piece_position >> 7u8) & not_files.a).not_zero() {
            attacks = attacks | (piece_position >> 7u8);
        }
        if ((piece_position >> 9u8) & not_files.h).not_zero() {
            attacks = attacks | (piece_position >> 9u8);
        }
    } else {
        if ((piece_position << 7u8) & not_files.h).not_zero() {
            attacks = attacks | (piece_position << 7u8);
        }
        if ((piece_position << 9u8) & not_files.a).not_zero() {
            attacks = attacks | (piece_position << 9u8);
        }
    }

    attacks
}

pub fn mask_knight_attacks(index: u8, not_files: &NotFiles) -> (attacks: BitBoard)
    requires
        index < 64,
    ensures
        attacks.0 == knight_attack_set(index, *not_files),
{
    let mut attacks = BitBoard::new();
    let mut piece_position = BitBoard::new();
    piece_position.set_bit(index);

    if ((piece_position >> 17u8) & not_files.h).not_zero() {
        attacks = attacks | (piece_position >> 17u8);
    }
    if ((piece_position >> 15u8) & not_files.a).not_zero() {
        attacks = attacks | (piece_position >> 15u8);
    }
    if ((piece_position >> 10u8) & not_files.gh).not_zero() {
        attacks = attacks | (piece_position >> 10u8);
    }
    if ((piece_position >> 6u8) & not_files.ab).not_zero() {
        attacks = attacks | (piece_position >> 6u8);
    }
    if ((piece_position << 17u8) & not_files.a).not_zero() {
        attacks = attacks | (piece_position << 17u8);
    }
    if ((piece_position << 15u8) & not_files.h).not_zero() {
        attacks = attacks | (piece_position << 15u8);
    }
    if ((piece_position << 10u8) & not_files.ab).not_zero() {
        attacks = attacks | (piece_position << 10u8);
    }
    if ((piece_position << 6u8) & not_files.gh).not_zero() {
        attacks = attacks | (piece_position << 6u8);
    }

    attacks
}

proof fn lemma_all_ones(x: u64)
    by (bit_vector)
    ensures
        x & 0xFFFF_FFFF_FFFF_FFFFu64 == x,
{
}

pub fn mask_king_attacks(index: u8, not_files: &NotFiles) -> (attacks: BitBoard)
    requires
        index < 64,
    ensures
        attacks.0 == king_attack_set(index, *not_files),
{
    let mut attacks = BitBoard::new();
    let mut piece_position = BitBoard::new();
    piece_position.set_bit(index);
    proof {
        lemma_all_ones(piece_position.0 >> 8u8);
        lemma_all_ones(piece_position.0 << 8u8);
    }

    if (piece_position >> 8u8).not_zero() {
        attacks = attacks | (piece_position >> 8u8);
    }
    if ((piece_position >> 9u8) & not_files.h).not_zero() {
        attacks = attacks | (piece_position >> 9u8);
    }
    if ((piece_position >> 7u8) & not_files.a).not_zero() {
        attacks = attacks | (piece_position >> 7u8);
    }
    if ((piece_position >> 1u8) & not_files.h).not_zero() {
        attacks = attacks | (piece_position >> 1u8);
    }
    if (piece_position << 8u8).not_zero() {
        attacks = attacks | (piece_position << 8u8);
    }
    if ((piece_position << 9u8) & not_files.a).not_zero() {
        attacks = attacks | (piece_position << 9u8);
    }
    if ((piece_position << 7u8) & not_files.h).not_zero() {
        attacks = attacks | (piece_position << 7u8);
    }
    if ((piece_position << 1u8) & not_files.a).not_zero() {
        attacks = attacks | (piece_position << 1u8);
    }

    attacks
}

pub fn mask_sliding_occupancy(index: u8, piece: u8) -> (occupancy: BitBoard)
    requires
        index < 64,
        piece == Constants::_BISHOP || piece == Constants::_ROOK,
    ensures
        occupancy.0 == relevance_mask(piece, index as int),
{
    let mut occupancy = BitBoard::new();
    let start_file = index as i8 % 8;
    let start_rank = index as i8 / 8;

    let (file_dir, rank_dir): (i8, i8) = if piece == Constants::_BISHOP {
        (1, 1)
    } else {
        (1, 0)
    };

    occupancy = occupancy | mask_occupancy_in_direction(start_file, start_rank, file_dir, rank_dir);
    occupancy = occupancy | mask_occupancy_in_direction(
        start_file,
        start_rank,
        -file_dir,
        -rank_dir,
    );
    occupancy = occupancy | mask_occupancy_in_direction(start_file, start_rank, -rank_dir, file_dir);
    occupancy = occupancy | mask_occupancy_in_direction(start_file, start_rank, rank_dir, -file_dir);
    occupancy
}

pub fn mask_occupancy_in_direction(start_file: i8, start_rank: i8, file_dir: i8, rank_dir: i8) -> (occupancy:
    BitBoard)
    requires
        on_board(start_file as int, start_rank as int),
        is_direction(file_dir as int, rank_dir as int),
    ensures
        occupancy.0 == ray_relevance(
            start_rank * 8 + start_file,
            file_dir as int,
            rank_dir as int,
        ),
{
    let mut occupancy = BitBoard::new();

    let mut file = start_file + file_dir;
    let mut rank = start_rank + rank_dir;
    while (file_dir == 0 || (file >= 1 && file <= 6)) && (rank_dir == 0 || (rank >= 1 && rank <= 6))
        invariant
            -1 <= file <= 8,
            -1 <= rank <= 8,
            file_dir == 0 ==> 0 <= file < 8,
            rank_dir == 0 ==> 0 <= rank < 8,
            is_direction(file_dir as int, rank_dir as int),
            relevance_acc(occupancy.0, file as int, rank as int, file_dir as int, rank_dir as int)
                == ray_relevance(start_rank * 8 + start_file, file_dir as int, rank_dir as int),
        decreases steps_left(file as int, rank as int, file_dir as int, rank_dir as int),
    {
        let index = (rank as u8 * 8) + file as u8;
        occupancy.set_bit(index);
        file += file_dir;
        rank += rank_dir;
    }

    occupancy
}

pub fn mask_sliding_attacks(index: u8, piece: u8, blocking: &BitBoard) -> (attacks: BitBoard)
    requires
        index < 64,
        piece == Constants::_BISHOP || piece == Constants::_ROOK,
    ensures
        attacks.0 == slider_attacks(piece, index as int, blocking.0),
{
    let mut attacks = BitBoard::new();
    let start_file = index as i8 % 8;
    let start_rank = index as i8 / 8;

    let (file_dir, rank_dir): (i8, i8) = if piece == Constants::_BISHOP {
        (1, 1)
    } else {
        (1, 0)
    };

    attacks = attacks | mask_attacks_in_direction(
        start_file,
        start_rank,
        file_dir,
        rank_dir,
        blocking,
    );
    attacks = attacks | mask_attacks_in_direction(
        start_file,
        start_rank,
        -file_dir,
        -rank_dir,
        blocking,
    );
    attacks = attacks | mask_attacks_in_direction(
        start_file,
        start_rank,
        -rank_dir,
        file_dir,
        blocking,
    );
    attacks = attacks | mask_attacks_in_direction(
        start_file,
        start_rank,
        rank_dir,
        -file_dir,
        blocking,
    );

    attacks
}

pub fn mask_attacks_in_direction(
    start_file: i8,
    start_rank: i8,
    file_dir: i8,
    rank_dir: i8,
    blocking: &BitBoard,
) -> (attacks: BitBoard)
    requires
        on_board(start_file as int, start_rank as int),
        is_direction(file_dir as int, rank_dir as int),
    ensures
        attacks.0 == ray_attacks(
            start_rank * 8 + start_file,
            file_dir as int,
            rank_dir as int,
            blocking.0,
        ),
{
    let mut attacks = BitBoard::new();

    let mut file = start_file + file_dir;
    let mut rank = start_rank + rank_dir;
    let mut blocked = false;
    while !blocked && file >= 0 && rank >= 0 && file <= 7 && rank <= 7
        invariant
            -1 <= file <= 8,
            -1 <= rank <= 8,
            is_direction(file_dir as int, rank_dir as int),
            blocked ==> attacks.0 == ray_attacks(
                start_rank * 8 + start_file,
                file_dir as int,
                rank_dir as int,
                blocking.0,
            ),
            !blocked ==> attack_acc(
                attacks.0,
                file as int,
                rank as int,
                file_dir as int,
                rank_dir as int,
                blocking.0,
            ) == ray_attacks(
                start_rank * 8 + start_file,
                file_dir as int,
                rank_dir as int,
                blocking.0,
            ),
        decreases
                if blocked {
                    0
                } else {
                    steps_left(file as int, rank as int, file_dir as int, rank_dir as int)
                },
    {
        let index = (rank as u8 * 8) + file as u8;
        let mut attack_position = BitBoard::new();
        attack_position.set_bit(index);
        attacks = attacks | attack_position;
        if (attack_position & *blocking).not_zero() {
            blocked = true;
        } else {
            file += file_dir;
            rank += rank_dir;
        }
    }

    attacks
}

pub fn set_occupancy(index: u64, bits_in_mask: u8, attack_mask: &BitBoard) -> (occupancy: BitBoard)
    requires
        bits_in_mask as nat <= popcount(attack_mask.0),
    ensures
        occupancy.0 == occupancy_of(index, bits_in_mask as nat, attack_mask.0),
{
    let ghost mask = attack_mask.0;
    let mut attack_mask = BitBoard(attack_mask.0);
    let mut occupancy = BitBoard::new();
    let mut count: u8 = 0;
    proof {
        lemma_popcount_zero(attack_mask.0);
    }
    while count < bits_in_mask
        invariant
            count <= bits_in_mask,
            bits_in_mask <= 64,
            bits_in_mask - count <= popcount(attack_mask.0),
            deposit_acc(
                occupancy.0,
                index,
                attack_mask.0,
                count as nat,
                bits_in_mask as nat,
            ) == occupancy_of(index, bits_in_mask as nat, mask),
        decreases bits_in_mask - count,
    {
        proof {
            lemma_popcount_zero(attack_mask.0);
            lemma_without_lowest(attack_mask.0);
        }
        let square = attack_mask.ls1b_index().unwrap();
        attack_mask.pop_bit(square);
        if (BitBoard(index & (1u64 << (count as u64)))).not_zero() {
            occupancy = occupancy | BitBoard(1u64 << (square as u64));
        }
        count += 1;
    }
    occupancy
}

/// Why the tables could not be computed.
#[derive(Copy, Clone, PartialEq, Eq, Structural, Debug)]
pub enum TableError {
    /// The number of relevant bits given for a square is not the number of
    /// squares of its relevance mask, or is out of range.
    RelevantBits { square: u8, piece: u8 },
    /// No magic multiplier was found for a square within the budget of
    /// attempts.
    MagicNotFound { square: u8, piece: u8 },
}

proof fn lemma_slot_bound(product: u64, bits: u8)
    by (bit_vector)
    requires
        1 <= bits <= 12,
    ensures
        product >> ((64 - bits) as u8) < (1u64 << bits),
        (1u64 << bits) <= 4096,
        bits <= 9 ==> (1u64 << bits) <= 512,
{
}

/// The occupancies that the indices below `n` select, and what the slider
/// attacks under each.
pub open spec fn enumerated(
    piece: u8,
    square: u8,
    bits: u8,
    occupancies: Seq<BitBoard>,
    attacks: Seq<BitBoard>,
    n: int,
) -> bool {
    forall|k: int|
        0 <= k < n ==> (#[trigger] occupancies[k]).0 == occupancy_of(
            k as u64,
            bits as nat,
            relevance_mask(piece, square as int),
        ) && attacks[k].0 == slider_attacks(piece, square as int, occupancies[k].0)
}

/// The most attempts that the search for one magic multiplier makes.
pub const MAGIC_ATTEMPTS: u32 = 100000000;

/// Whether `magic` passes the test of the search: the product of the
/// relevance mask and the multiplier has at least six bits in its top
/// byte, and the multiplier is magic.
pub open spec fn passes(piece: u8, square: u8, bits: u8, magic: u64) -> bool {
    popcount(wrapping_mul(relevance_mask(piece, square as int), magic) & 0xFF00_0000_0000_0000u64)
        >= 6 && is_magic(piece, square, bits, magic)
}

/// The first of the next `attempts` candidates of the generator that
/// passes the test, if there is one.
pub open spec fn first_magic(piece: u8, square: u8, bits: u8, state: u32, attempts: nat) -> Option<
    u64,
>
    decreases attempts,
{
    if attempts == 0 {
        None
    } else if passes(piece, square, bits, magic_candidate(state)) {
        Some(magic_candidate(state))
    } else {
        first_magic(piece, square, bits, advanced(state, 12), (attempts - 1) as nat)
    }
}

/// The state of the generator after the search: that after the candidate
/// that was found, or after all attempts.
pub open spec fn state_after_search(piece: u8, square: u8, bits: u8, state: u32, attempts: nat) -> u32
    decreases attempts,
{
    if attempts == 0 {
        state
    } else if passes(piece, square, bits, magic_candidate(state)) {
        advanced(state, 12)
    } else {
        state_after_search(piece, square, bits, advanced(state, 12), (attempts - 1) as nat)
    }
}

/// Searches for a magic multiplier for a slider on `square`: tries the
/// candidates of the generator in turn and returns the first that passes
/// the test, or `None` when the budget of attempts is spent.
pub fn find_magic_number(square: u8, relevant_bits: u8, piece: u8, state: &mut u32) -> (r: Option<
    BitBoard,
>)
    requires
        square < 64,
        piece == Constants::_BISHOP || piece == Constants::_ROOK,
        1 <= relevant_bits <= 12,
        relevant_bits as nat <= popcount(relevance_mask(piece, square as int)),
    ensures
        r matches Some(magic) ==> is_magic(piece, square, relevant_bits, magic.0),
        match r {
            Some(magic) => first_magic(
                piece,
                square,
                relevant_bits,
                *old(state),
                MAGIC_ATTEMPTS as nat,
            ) == Some(magic.0),
            None => first_magic(piece, square, relevant_bits, *old(state), MAGIC_ATTEMPTS as nat)
                is None,
        },
        *final(state) == state_after_search(
            piece,
            square,
            relevant_bits,
            *old(state),
            MAGIC_ATTEMPTS as nat,
        ),
{
    let mut occupancies = vec![BitBoard::new(); 4096];
    let mut attacks = vec![BitBoard::new(); 4096];
    let attack_mask = mask_sliding_occupancy(square, piece);
    let occupancy_indicies: u64 = 1u64 << relevant_bits;
    let ghost mask = relevance_mask(piece, square as int);
    proof {
        lemma_slot_bound(0, relevant_bits);
    }

    let mut i: u64 = 0;
    while i < occupancy_indicies
        invariant
            i <= occupancy_indicies,
            occupancy_indicies <= 4096,
            occupancies.len() == 4096,
            attacks.len() == 4096,
            square < 64,
            piece == Constants::_BISHOP || piece == Constants::_ROOK,
            attack_mask.0 == mask,
            mask == relevance_mask(piece, square as int),
            relevant_bits as nat <= popcount(mask),
            enumerated(piece, square, relevant_bits, occupancies@, attacks@, i as int),
        decreases occupancy_indicies - i,
    {
        let index = i as usize;
        let occupancy = set_occupancy(i, relevant_bits, &attack_mask);
        occupancies[index] = occupancy;
        attacks[index] = mask_sliding_attacks(square, piece, &occupancy);
        i += 1;
    }

    let ghost s0 = *state;
    let mut attempt: u32 = 0;
    while attempt < MAGIC_ATTEMPTS
        invariant
            attempt <= MAGIC_ATTEMPTS,
            s0 == *old(state),
            occupancy_indicies == 1u64 << relevant_bits,
            occupancy_indicies <= 4096,
            occupancies.len() == 4096,
            attacks.len() == 4096,
            square < 64,
            piece == Constants::_BISHOP || piece == Constants::_ROOK,
            1 <= relevant_bits <= 12,
            attack_mask.0 == mask,
            mask == relevance_mask(piece, square as int),
            enumerated(
                piece,
                square,
                relevant_bits,
                occupancies@,
                attacks@,
                occupancy_indicies as int,
            ),
            first_magic(piece, square, relevant_bits, s0, MAGIC_ATTEMPTS as nat) == first_magic(
                piece,
                square,
                relevant_bits,
                *state,
                (MAGIC_ATTEMPTS - attempt) as nat,
            ),
            state_after_search(piece, square, relevant_bits, s0, MAGIC_ATTEMPTS as nat)
                == state_after_search(
                piece,
                square,
                relevant_bits,
                *state,
                (MAGIC_ATTEMPTS - attempt) as nat,
            ),
        decreases MAGIC_ATTEMPTS - attempt,
    {
        let ghost s = *state;
        let magic_number = generate_magic_candidate(state);
        let mut good = false;
        if ((attack_mask * magic_number) & BitBoard(0xFF00000000000000)).count_bits() >= 6 {
            good = is_magic_number(
                square,
                relevant_bits,
                piece,
                magic_number,
                &occupancies,
                &attacks,
            );
        }
        proof {
            let n = (MAGIC_ATTEMPTS - attempt) as nat;
            assert(good == passes(piece, square, relevant_bits, magic_candidate(s)));
            assert(first_magic(piece, square, relevant_bits, s, n) == if passes(
                piece,
                square,
                relevant_bits,
                magic_candidate(s),
            ) {
                Some(magic_candidate(s))
            } else {
                first_magic(piece, square, relevant_bits, advanced(s, 12), (n - 1) as nat)
            });
            assert(state_after_search(piece, square, relevant_bits, s, n) == if passes(
                piece,
                square,
                relevant_bits,
                magic_candidate(s),
            ) {
                advanced(s, 12)
            } else {
                state_after_search(piece, square, relevant_bits, advanced(s, 12), (n - 1) as nat)
            });
        }
        if good {
            return Some(magic_number);
        }
        attempt += 1;
    }
    None
}

/// Whether `magic_number` hashes the enumerated occupancies without a
/// collision between two under which the slider attacks different squares.
fn is_magic_number(
    square: u8,
    relevant_bits: u8,
    piece: u8,
    magic_number: BitBoard,
    occupancies: &Vec<BitBoard>,
    attacks: &Vec<BitBoard>,
) -> (good: bool)
    requires
        square < 64,
        piece == Constants::_BISHOP || piece == Constants::_ROOK,
        1 <= relevant_bits <= 12,
        occupancies.len() == 4096,
        attacks.len() == 4096,
        enumerated(
            piece,
            square,
            relevant_bits,
            occupancies@,
            attacks@,
            (1u64 << relevant_bits) as int,
        ),
    ensures
        good == is_magic(piece, square, relevant_bits, magic_number.0),
{
    let occupancy_indicies: u64 = 1u64 << relevant_bits;
    let ghost mask = relevance_mask(piece, square as int);
    let ghost magic = magic_number.0;
    proof {
        lemma_slot_bound(0, relevant_bits);
    }
    let mut used_attacks = vec![BitBoard::new(); 4096];
    let mut fail = false;
    let mut index: u64 = 0;
    while index < occupancy_indicies && !fail
        invariant
            index <= occupancy_indicies,
            occupancy_indicies == 1u64 << relevant_bits,
            occupancy_indicies <= 4096,
            occupancies.len() == 4096,
            attacks.len() == 4096,
            used_attacks.len() == 4096,
            square < 64,
            piece == Constants::_BISHOP || piece == Constants::_ROOK,
            1 <= relevant_bits <= 12,
            magic == magic_number.0,
            mask == relevance_mask(piece, square as int),
            enumerated(
                piece,
                square,
                relevant_bits,
                occupancies@,
                attacks@,
                occupancy_indicies as int,
            ),
            !fail ==> forall|k: int|
                0 <= k < index ==> used_attacks@[slot_of(
                    (#[trigger] occupancies@[k]).0,
                    magic,
                    relevant_bits,
                ) as int] == attacks@[k],
            !fail ==> forall|slot: int|
                0 <= slot < 4096 && (#[trigger] used_attacks@[slot]).0 != 0 ==> exists|k: int|
                    0 <= k < index && slot_of(
                        (#[trigger] occupancies@[k]).0,
                        magic,
                        relevant_bits,
                    ) == slot,
            fail ==> !is_magic(piece, square, relevant_bits, magic),
        decreases occupancy_indicies - index + if fail {
            0int
        } else {
            1int
        },
    {
        let occupancy = occupancies[index as usize];
        let attack = attacks[index as usize];
        proof {
            lemma_slot_bound(wrapping_mul(occupancy.0, magic), relevant_bits);
            lemma_slider_attacks_nonzero(piece, square as int, occupancy.0);
        }
        let magic_index: usize = ((occupancy * magic_number) >> (64 - relevant_bits)).0 as usize;
        let ghost used_before = used_attacks@;
        if !used_attacks[magic_index].not_zero() {
            used_attacks[magic_index] = attack;
            proof {
                assert forall|k: int| 0 <= k < index + 1 implies used_attacks@[slot_of(
                    (#[trigger] occupancies@[k]).0,
                    magic,
                    relevant_bits,
                ) as int] == attacks@[k] by {
                    if k < index {
                        lemma_slot_bound(wrapping_mul(occupancies@[k].0, magic), relevant_bits);
                        lemma_slider_attacks_nonzero(piece, square as int, occupancies@[k].0);
                    }
                }
                assert forall|slot: int|
                    0 <= slot < 4096 && (#[trigger] used_attacks@[slot]).0 != 0 implies exists|
                    k: int,
                |
                    0 <= k < index + 1 && slot_of(
                        (#[trigger] occupancies@[k]).0,
                        magic,
                        relevant_bits,
                    ) == slot by {
                    if slot == magic_index {
                        assert(slot_of(occupancies@[index as int].0, magic, relevant_bits) == slot);
                    } else {
                        assert(used_before[slot].0 != 0);
                    }
                }
            }
        } else if used_attacks[magic_index].0 != attack.0 {
            fail = true;
            proof {
                let slot = magic_index as int;
                assert(used_before[slot].0 != 0);
                let k = choose|k: int|
                    0 <= k < index && slot_of(
                        (#[trigger] occupancies@[k]).0,
                        magic,
                        relevant_bits,
                    ) == slot;
                assert(attacks@[k] == used_before[slot]);
                let i = k as u64;
                let j = index;
                assert(occupancies@[k].0 == occupancy_of(i, relevant_bits as nat, mask));
                assert(occupancies@[index as int].0 == occupancy_of(j, relevant_bits as nat, mask));
                assert(slider_attacks(
                    piece,
                    square as int,
                    occupancy_of(i, relevant_bits as nat, mask),
                ) != slider_attacks(
                    piece,
                    square as int,
                    occupancy_of(j, relevant_bits as nat, mask),
                ));
            }
        }
        if !fail {
            index += 1;
        }
    }
    proof {
        if !fail {
            assert forall|i: u64, j: u64|
                #![trigger occupancy_of(i, relevant_bits as nat, mask), occupancy_of(j, relevant_bits as nat, mask)]
                i < (1u64 << relevant_bits) && j < (1u64 << relevant_bits) && slot_of(
                    occupancy_of(i, relevant_bits as nat, mask),
                    magic,
                    relevant_bits,
                ) == slot_of(
                    occupancy_of(j, relevant_bits as nat, mask),
                    magic,
                    relevant_bits,
                ) implies slider_attacks(
                piece,
                square as int,
                occupancy_of(i, relevant_bits as nat, mask),
            ) == slider_attacks(
                piece,
                square as int,
                occupancy_of(j, relevant_bits as nat, mask),
            ) by {
                assert(occupancies@[i as int].0 == occupancy_of(i, relevant_bits as nat, mask));
                assert(occupancies@[j as int].0 == occupancy_of(j, relevant_bits as nat, mask));
            }
        }
    }
    !fail
}

/// Whether the sliding-attack table `table` of `piece` is filled for the
/// squares below `squares`: for every occupancy that an index selects among
/// the relevant squares, the slot that the multiplier hashes it to holds
/// what the slider attacks under it.
pub open spec fn filled(
    piece: u8,
    table: Seq<Vec<BitBoard>>,
    magics: Seq<BitBoard>,
    bits: Seq<u8>,
    squares: int,
) -> bool {
    forall|sq: int, i: u64|
        #![trigger occupancy_of(i, bits[sq] as nat, relevance_mask(piece, sq))]
        0 <= sq < squares && i < (1u64 << bits[sq]) ==> table[sq]@[slot_of(
            occupancy_of(i, bits[sq] as nat, relevance_mask(piece, sq)),
            magics[sq].0,
            bits[sq],
        ) as int].0 == slider_attacks(
            piece,
            sq,
            occupancy_of(i, bits[sq] as nat, relevance_mask(piece, sq)),
        )
}

/// Whether every row of `table` has `columns` entries.
pub open spec fn rows_of(table: Seq<Vec<BitBoard>>, columns: int) -> bool {
    table.len() == 64 && forall|sq: int| 0 <= sq < 64 ==> (#[trigger] table[sq]).len() == columns
}

/// Computes both relevance masks for every square, and fills the
/// sliding-attack table of `piece` by the multipliers given.
pub fn init_sliders_attacks(
    piece: u8,
    bishop_masks: &mut Vec<BitBoard>,
    rook_masks: &mut Vec<BitBoard>,
    bishop_attacks: &mut Vec<Vec<BitBoard>>,
    rook_attacks: &mut Vec<Vec<BitBoard>>,
    magic_numbers: &Vec<BitBoard>,
    relevant_bits: &Vec<u8>,
)
    requires
        piece == Constants::_BISHOP || piece == Constants::_ROOK,
        old(bishop_masks).len() == 64,
        old(rook_masks).len() == 64,
        rows_of(old(bishop_attacks)@, 512),
        rows_of(old(rook_attacks)@, 4096),
        magic_numbers.len() == 64,
        relevant_bits.len() == 64,
        forall|sq: int|
            0 <= sq < 64 ==> 1 <= #[trigger] relevant_bits[sq] <= (if piece == Constants::_BISHOP {
                9int
            } else {
                12int
            }) && relevant_bits[sq] as nat == popcount(relevance_mask(piece, sq)) && is_magic(
                piece,
                sq as u8,
                relevant_bits[sq],
                magic_numbers[sq].0,
            ),
    ensures
        final(bishop_masks).len() == 64,
        final(rook_masks).len() == 64,
        rows_of(final(bishop_attacks)@, 512),
        rows_of(final(rook_attacks)@, 4096),
        forall|sq: int|
            0 <= sq < 64 ==> (#[trigger] final(bishop_masks)[sq]).0 == relevance_mask(
                Constants::_BISHOP,
                sq,
            ),
        forall|sq: int|
            0 <= sq < 64 ==> (#[trigger] final(rook_masks)[sq]).0 == relevance_mask(
                Constants::_ROOK,
                sq,
            ),
        piece == Constants::_BISHOP ==> final(rook_attacks)@ == old(rook_attacks)@ && filled(
            piece,
            final(bishop_attacks)@,
            magic_numbers@,
            relevant_bits@,
            64,
        ),
        piece == Constants::_ROOK ==> final(bishop_attacks)@ == old(bishop_attacks)@ && filled(
            piece,
            final(rook_attacks)@,
            magic_numbers@,
            relevant_bits@,
            64,
        ),
{
    let mut square: usize = 0;
    while square < 64
        invariant
            square <= 64,
            piece == Constants::_BISHOP || piece == Constants::_ROOK,
            bishop_masks.len() == 64,
            rook_masks.len() == 64,
            rows_of(bishop_attacks@, 512),
            rows_of(rook_attacks@, 4096),
            magic_numbers.len() == 64,
            relevant_bits.len() == 64,
            forall|sq: int|
                0 <= sq < 64 ==> 1 <= #[trigger] relevant_bits[sq] <= (if piece
                    == Constants::_BISHOP {
                    9int
                } else {
                    12int
                }) && relevant_bits[sq] as nat == popcount(relevance_mask(piece, sq)) && is_magic(
                    piece,
                    sq as u8,
                    relevant_bits[sq],
                    magic_numbers[sq].0,
                ),
            forall|sq: int|
                0 <= sq < square ==> (#[trigger] bishop_masks[sq]).0 == relevance_mask(
                    Constants::_BISHOP,
                    sq,
                ),
            forall|sq: int|
                0 <= sq < square ==> (#[trigger] rook_masks[sq]).0 == relevance_mask(
                    Constants::_ROOK,
                    sq,
                ),
            piece == Constants::_BISHOP ==> rook_attacks@ == old(rook_attacks)@ && filled(
                piece,
                bishop_attacks@,
                magic_numbers@,
                relevant_bits@,
                square as int,
            ),
            piece == Constants::_ROOK ==> bishop_attacks@ == old(bishop_attacks)@ && filled(
                piece,
                rook_attacks@,
                magic_numbers@,
                relevant_bits@,
                square as int,
            ),
        decreases 64 - square,
    {
        bishop_masks[square] = mask_sliding_occupancy(square as u8, Constants::_BISHOP);
        rook_masks[square] = mask_sliding_occupancy(square as u8, Constants::_ROOK);

        let attack_mask = if piece == Constants::_BISHOP {
            bishop_masks[square]
        } else {
            rook_masks[square]
        };
        let relevant_bits_count = attack_mask.count_bits();
        let bits = relevant_bits[square];
        let magic = magic_numbers[square];
        assert(relevant_bits_count == bits);
        proof {
            lemma_slot_bound(0, bits);
        }
        let occupancy_indicies: u64 = 1u64 << relevant_bits_count;
        let ghost mask = relevance_mask(piece, square as int);
        let ghost bishop_before = bishop_attacks@;
        let ghost rook_before = rook_attacks@;
        let mut index: u64 = 0;
        while index < occupancy_indicies
            invariant
                index <= occupancy_indicies,
                occupancy_indicies == 1u64 << bits,
                square < 64,
                piece == Constants::_BISHOP || piece == Constants::_ROOK,
                1 <= bits <= 12,
                piece == Constants::_BISHOP ==> bits <= 9,
                relevant_bits_count == bits,
                bits as nat == popcount(mask),
                bits == relevant_bits[square as int],
                magic == magic_numbers[square as int],
                is_magic(piece, square as u8, bits, magic.0),
                attack_mask.0 == mask,
                mask == relevance_mask(piece, square as int),
                rows_of(bishop_attacks@, 512),
                rows_of(rook_attacks@, 4096),
                forall|sq: int|
                    0 <= sq < 64 && sq != square ==> #[trigger] bishop_attacks@[sq]
                        == bishop_before[sq] && rook_attacks@[sq] == rook_before[sq],
                piece == Constants::_BISHOP ==> rook_attacks@[square as int]
                    == rook_before[square as int],
                piece == Constants::_ROOK ==> bishop_attacks@[square as int]
                    == bishop_before[square as int],
                forall|i: u64|
                    #![trigger occupancy_of(i, bits as nat, mask)]
                    i < index ==> (if piece == Constants::_BISHOP {
                        bishop_attacks@[square as int]
                    } else {
                        rook_attacks@[square as int]
                    })@[slot_of(occupancy_of(i, bits as nat, mask), magic.0, bits) as int].0
                        == slider_attacks(
                        piece,
                        square as int,
                        occupancy_of(i, bits as nat, mask),
                    ),
            decreases occupancy_indicies - index,
        {
            let occupancy = set_occupancy(index, relevant_bits_count, &attack_mask);
            proof {
                lemma_slot_bound(wrapping_mul(occupancy.0, magic.0), bits);
            }
            let attack = mask_sliding_attacks(square as u8, piece, &occupancy);
            let ghost slot = slot_of(occupancy.0, magic.0, bits) as int;
            let ghost row_before = if piece == Constants::_BISHOP {
                bishop_attacks@[square as int]@
            } else {
                rook_attacks@[square as int]@
            };
            if piece == Constants::_BISHOP {
                let magic_index: usize = ((occupancy * magic) >> (64 - bits)).0 as usize;
                bishop_attacks[square][magic_index] = attack;
            }
            if piece == Constants::_ROOK {
                let magic_index: usize = ((occupancy * magic) >> (64 - bits)).0 as usize;
                rook_attacks[square][magic_index] = attack;
            }
            proof {
                let row = if piece == Constants::_BISHOP {
                    bishop_attacks@[square as int]@
                } else {
                    rook_attacks@[square as int]@
                };
                assert(row == row_before.update(slot, attack));
                assert forall|i: u64|
                    #![trigger occupancy_of(i, bits as nat, mask)]
                    i < index + 1 implies row[slot_of(
                    occupancy_of(i, bits as nat, mask),
                    magic.0,
                    bits,
                ) as int].0 == slider_attacks(
                    piece,
                    square as int,
                    occupancy_of(i, bits as nat, mask),
                ) by {
                    lemma_slot_bound(
                        wrapping_mul(occupancy_of(i, bits as nat, mask), magic.0),
                        bits,
                    );
                    if i < index && slot_of(occupancy_of(i, bits as nat, mask), magic.0, bits)
                        == slot {
                        assert(slot_of(occupancy_of(index, bits as nat, mask), magic.0, bits)
                            == slot);
                    }
                }
            }
            index += 1;
        }
        assert(forall|sq: int|
            0 <= sq < 64 && sq != square ==> #[trigger] bishop_attacks@[sq] == bishop_before[sq]
                && rook_attacks@[sq] == rook_before[sq]);
        proof {
            let table = if piece == Constants::_BISHOP {
                bishop_attacks@
            } else {
                rook_attacks@
            };
            let table_before = if piece == Constants::_BISHOP {
                bishop_before
            } else {
                rook_before
            };
            assert forall|sq: int, i: u64|
                #![trigger occupancy_of(i, relevant_bits@[sq] as nat, relevance_mask(piece, sq))]
                0 <= sq < square + 1 && i < (1u64 << relevant_bits@[sq]) implies table[sq]@[slot_of(
                occupancy_of(i, relevant_bits@[sq] as nat, relevance_mask(piece, sq)),
                magic_numbers@[sq].0,
                relevant_bits@[sq],
            ) as int].0 == slider_attacks(
                piece,
                sq,
                occupancy_of(i, relevant_bits@[sq] as nat, relevance_mask(piece, sq)),
            ) by {
                if sq < square {
                    assert(bishop_attacks@[sq] == bishop_before[sq]);
                    assert(rook_attacks@[sq] == rook_before[sq]);
                    assert(table[sq] == table_before[sq]);
                }
            }
            assert forall|sq: int| 0 <= sq < 64 implies #[trigger] rook_attacks@[sq]
                == rook_before[sq] || piece == Constants::_ROOK by {
                if sq != square {
                    assert(bishop_attacks@[sq] == bishop_before[sq]);
                    assert(rook_attacks@[sq] == rook_before[sq]);
                }
            }
            assert forall|sq: int| 0 <= sq < 64 implies #[trigger] bishop_attacks@[sq]
                == bishop_before[sq] || piece == Constants::_BISHOP by {}
            if piece == Constants::_BISHOP {
                assert(rook_attacks@ =~= rook_before);
            } else {
                assert(bishop_attacks@ =~= bishop_before);
            }
        }
        square += 1;
    }
}

/// The four masks as `NotFiles::new` makes them.
pub open spec fn standard_not_files() -> NotFiles {
    NotFiles {
        a: BitBoard(0xFEFE_FEFE_FEFE_FEFEu64),
        h: BitBoard(0x7F7F_7F7F_7F7F_7F7Fu64),
        ab: BitBoard(0xFCFC_FCFC_FCFC_FCFCu64),
        gh: BitBoard(0x3F3F_3F3F_3F3F_3F3Fu64),
    }
}

/// The colour with code `c`.
pub open spec fn color_of(c: int) -> Color {
    if c == 0 {
        Color::WHITE
    } else {
        Color::BLACK
    }
}

/// The `i`-th of the eight directions, clockwise from "right".
pub open spec fn direction_of(i: int) -> (int, int) {
    if i == 0 {
        (1, 0)
    } else if i == 1 {
        (1, 1)
    } else if i == 2 {
        (0, 1)
    } else if i == 3 {
        (-1, 1)
    } else if i == 4 {
        (-1, 0)
    } else if i == 5 {
        (-1, -1)
    } else if i == 6 {
        (0, -1)
    } else {
        (1, -1)
    }
}

/// Whether the sliding-attack table `t` is the computed table of `piece`:
/// every square has its relevance mask and as many relevant bits as the
/// mask has squares, its multiplier is magic, and every occupancy that an
/// index selects among the relevant squares is hashed to a slot that holds
/// what the slider attacks under it.
pub open spec fn slider_computed(piece: u8, t: crate::tables::SlidingTable) -> bool {
    &&& t.wf()
    &&& forall|sq: int| 0 <= sq < 64 ==> #[trigger] t.masks[sq] == relevance_mask(piece, sq)
    &&& forall|sq: int|
        0 <= sq < 64 ==> (#[trigger] t.bits[sq]) as nat == popcount(relevance_mask(piece, sq))
    &&& forall|sq: int|
        0 <= sq < 64 ==> is_magic(piece, sq as u8, #[trigger] t.bits[sq], t.magics[sq])
    &&& forall|sq: int, i: u64|
        #![trigger occupancy_of(i, t.bits[sq] as nat, relevance_mask(piece, sq))]
        0 <= sq < 64 && i < (1u64 << t.bits[sq]) ==> t.attacks[sq][slot_of(
            occupancy_of(i, t.bits[sq] as nat, relevance_mask(piece, sq)),
            t.magics[sq],
            t.bits[sq],
        ) as int] == slider_attacks(
            piece,
            sq,
            occupancy_of(i, t.bits[sq] as nat, relevance_mask(piece, sq)),
        )
}

/// Whether the tables are the computed ones: the leaper tables hold the
/// attack sets and push sets of every square, the rank masks are those of
/// the promotion, single-push and double-push ranks of either colour, the
/// direction table holds the eight rays of every square, and both
/// sliding-attack tables are the computed tables.
pub open spec fn computed(t: crate::tables::MoveTables) -> bool {
    &&& t.wf()
    &&& forall|c: int, sq: int|
        0 <= c < 2 && 0 <= sq < 64 ==> #[trigger] t.leaping.pawn_attacks[c][sq] == pawn_attack_set(
            color_of(c),
            sq as u8,
            standard_not_files(),
        )
    &&& forall|c: int, sq: int|
        0 <= c < 2 && 0 <= sq < 64 ==> #[trigger] t.leaping.pawn_moves[c][sq] == pawn_push_set(
            color_of(c),
            sq as u8,
            WHITE_HOME,
            BLACK_HOME,
        )
    &&& forall|sq: int|
        0 <= sq < 64 ==> #[trigger] t.leaping.knight[sq] == knight_attack_set(
            sq as u8,
            standard_not_files(),
        )
    &&& forall|sq: int|
        0 <= sq < 64 ==> #[trigger] t.leaping.king[sq] == king_attack_set(
            sq as u8,
            standard_not_files(),
        )
    &&& t.promotion_ranks[0] == 0xFFu64
    &&& t.promotion_ranks[1] == 0xFF00_0000_0000_0000u64
    &&& t.single_push_ranks[0] == 0x0000_FF00_0000_0000u64
    &&& t.single_push_ranks[1] == 0x0000_0000_00FF_0000u64
    &&& t.double_push_ranks[0] == 0x0000_00FF_0000_0000u64
    &&& t.double_push_ranks[1] == 0x0000_0000_FF00_0000u64
    &&& forall|d: int, sq: int|
        0 <= d < 8 && 0 <= sq < 64 ==> #[trigger] t.directions[d][sq] == ray(
            sq,
            direction_of(d).0,
            direction_of(d).1,
        )
    &&& slider_computed(Constants::_BISHOP, t.bishop)
    &&& slider_computed(Constants::_ROOK, t.rook)
}

proof fn lemma_home_ranks(i: u8)
    by (bit_vector)
    requires
        i < 64,
    ensures
        (0x00FF_0000_0000_0000u64 & (1u64 << i) != 0) == (48 <= i < 56),
        (0x0000_0000_0000_FF00u64 & (1u64 << i) != 0) == (8 <= i < 16),
{
}

fn pawn_attack_row(side: Color, not_files: &NotFiles) -> (row: Vec<BitBoard>)
    ensures
        row.len() == 64,
        forall|sq: int|
            0 <= sq < 64 ==> (#[trigger] row[sq]).0 == pawn_attack_set(side, sq as u8, *not_files),
{
    let mut row: Vec<BitBoard> = Vec::new();
    let mut i: u8 = 0;
    while i < 64
        invariant
            i <= 64,
            row.len() == i,
            forall|sq: int|
                0 <= sq < i ==> (#[trigger] row[sq]).0 == pawn_attack_set(
                    side,
                    sq as u8,
                    *not_files,
                ),
        decreases 64 - i,
    {
        row.push(mask_pawn_attacks(side, i, not_files));
        i += 1;
    }
    row
}

fn pawn_move_row(side: Color) -> (row: Vec<BitBoard>)
    ensures
        row.len() == 64,
        forall|sq: int|
            0 <= sq < 64 ==> (#[trigger] row[sq]).0 == pawn_push_set(
                side,
                sq as u8,
                WHITE_HOME,
                BLACK_HOME,
            ),
{
    let white_pawn_starting_file = BitBoard(WHITE_HOME);
    let black_pawn_starting_file = BitBoard(BLACK_HOME);
    proof {
        assert forall|k: u8| k < 64 implies white_pawn_starting_file.has(k) == (48 <= k < 56)
            && black_pawn_starting_file.has(k) == (8 <= k < 16) by {
            lemma_home_ranks(k);
        }
    }
    let mut row: Vec<BitBoard> = Vec::new();
    let mut i: u8 = 0;
    while i < 64
        invariant
            i <= 64,
            row.len() == i,
            forall|k: u8| k < 64 ==> white_pawn_starting_file.has(k) == (48 <= k < 56),
            forall|k: u8| k < 64 ==> black_pawn_starting_file.has(k) == (8 <= k < 16),
            white_pawn_starting_file.0 == WHITE_HOME,
            black_pawn_starting_file.0 == BLACK_HOME,
            forall|sq: int|
                0 <= sq < i ==> (#[trigger] row[sq]).0 == pawn_push_set(
                    side,
                    sq as u8,
                    WHITE_HOME,
                    BLACK_HOME,
                ),
        decreases 64 - i,
    {
        row.push(mask_pawn_moves(side, i, white_pawn_starting_file, black_pawn_starting_file));
        i += 1;
    }
    row
}

fn knight_row(not_files: &NotFiles) -> (row: Vec<BitBoard>)
    ensures
        row.len() == 64,
        forall|sq: int|
            0 <= sq < 64 ==> (#[trigger] row[sq]).0 == knight_attack_set(sq as u8, *not_files),
{
    let mut row: Vec<BitBoard> = Vec::new();
    let mut i: u8 = 0;
    while i < 64
        invariant
            i <= 64,
            row.len() == i,
            forall|sq: int|
                0 <= sq < i ==> (#[trigger] row[sq]).0 == knight_attack_set(sq as u8, *not_files),
        decreases 64 - i,
    {
        row.push(mask_knight_attacks(i, not_files));
        i += 1;
    }
    row
}

fn king_row(not_files: &NotFiles) -> (row: Vec<BitBoard>)
    ensures
        row.len() == 64,
        forall|sq: int|
            0 <= sq < 64 ==> (#[trigger] row[sq]).0 == king_attack_set(sq as u8, *not_files),
{
    let mut row: Vec<BitBoard> = Vec::new();
    let mut i: u8 = 0;
    while i < 64
        invariant
            i <= 64,
            row.len() == i,
            forall|sq: int|
                0 <= sq < i ==> (#[trigger] row[sq]).0 == king_attack_set(sq as u8, *not_files),
        decreases 64 - i,
    {
        row.push(mask_king_attacks(i, not_files));
        i += 1;
    }
    row
}

fn direction_row(direction: usize) -> (row: Vec<BitBoard>)
    requires
        direction < 8,
    ensures
        row.len() == 64,
        forall|sq: int|
            0 <= sq < 64 ==> (#[trigger] row[sq]).0 == ray(
                sq,
                direction_of(direction as int).0,
                direction_of(direction as int).1,
            ),
{
    let (file_dir, rank_dir) = _index_to_direction(direction);
    let mut row: Vec<BitBoard> = Vec::new();
    let mut i: u8 = 0;
    while i < 64
        invariant
            i <= 64,
            row.len() == i,
            is_direction(file_dir as int, rank_dir as int),
            file_dir == direction_of(direction as int).0,
            rank_dir == direction_of(direction as int).1,
            forall|sq: int|
                0 <= sq < i ==> (#[trigger] row[sq]).0 == ray(
                    sq,
                    direction_of(direction as int).0,
                    direction_of(direction as int).1,
                ),
        decreases 64 - i,
    {
        row.push(squares_in_direction(i, file_dir, rank_dir));
        i += 1;
    }
    row
}

/// The numbers of relevant bits that the search of the multipliers of the
/// bishop (`piece` 0) or the rook (`piece` 1) is given, by square.
pub open spec fn given_bits(piece: u8) -> Seq<u8> {
    if piece == Constants::_BISHOP {
        seq![
            6u8, 5, 5, 5, 5, 5, 5, 6, 5, 5, 5, 5, 5, 5, 5, 5, 5, 5, 7, 7, 7, 7, 5, 5, 5, 5, 7, 9, 9,
            7, 5, 5, 5, 5, 7, 9, 9, 7, 5, 5, 5, 5, 7, 7, 7, 7, 5, 5, 5, 5, 5, 5, 5, 5, 5, 5, 6, 5, 5,
            5, 5, 5, 5, 6,
        ]
    } else {
        seq![
            12u8, 11, 11, 11, 11, 11, 11, 12, 11, 10, 10, 10, 10, 10, 10, 11, 11, 10, 10, 10, 10,
            10, 10, 11, 11, 10, 10, 10, 10, 10, 10, 11, 11, 10, 10, 10, 10, 10, 10, 11, 11, 10, 10,
            10, 10, 10, 10, 11, 11, 10, 10, 10, 10, 10, 10, 11, 12, 11, 11, 11, 11, 11, 11, 12,
        ]
    }
}

/// The numbers of relevant bits of the bishop (`piece` 0) or the rook
/// (`piece` 1), by square.
fn relevant_bits_of(piece: u8) -> (bits: Vec<u8>)
    ensures
        bits.len() == 64,
        bits@ == given_bits(piece),
{
    let bits = if piece == Constants::_BISHOP {
        vec![
            6u8, 5, 5, 5, 5, 5, 5, 6, 5, 5, 5, 5, 5, 5, 5, 5, 5, 5, 7, 7, 7, 7, 5, 5, 5, 5, 7, 9, 9,
            7, 5, 5, 5, 5, 7, 9, 9, 7, 5, 5, 5, 5, 7, 7, 7, 7, 5, 5, 5, 5, 5, 5, 5, 5, 5, 5, 6, 5, 5,
            5, 5, 5, 5, 6,
        ]
    } else {
        vec![
            12u8, 11, 11, 11, 11, 11, 11, 12, 11, 10, 10, 10, 10, 10, 10, 11, 11, 10, 10, 10, 10,
            10, 10, 11, 11, 10, 10, 10, 10, 10, 10, 11, 11, 10, 10, 10, 10, 10, 10, 11, 11, 10, 10,
            10, 10, 10, 10, 11, 11, 10, 10, 10, 10, 10, 10, 11, 12, 11, 11, 11, 11, 11, 11, 12,
        ]
    };
    assert(bits@ =~= given_bits(piece));
    bits
}

/// The most relevant bits that a square of the bishop (`piece` 0) or the
/// rook (`piece` 1) can have.
pub open spec fn most_bits(piece: u8) -> int {
    if piece == Constants::_BISHOP {
        9
    } else {
        12
    }
}

/// What the search of the multipliers of the first `n` squares gives, from
/// the state `state` of the generator on: the multipliers and the state
/// after them; or the error of the first square whose number of relevant
/// bits is not that of its relevance mask, or for which no candidate
/// within the budget passes.
pub open spec fn magics_upto(piece: u8, bits: Seq<u8>, state: u32, n: nat) -> Result<
    (Seq<u64>, u32),
    TableError,
>
    decreases n,
{
    if n == 0 {
        Ok((Seq::empty(), state))
    } else {
        match magics_upto(piece, bits, state, (n - 1) as nat) {
            Err(e) => Err(e),
            Ok((found, s)) => {
                let square = (n - 1) as u8;
                let b = bits[n - 1];
                if b < 1 || b > most_bits(piece) || popcount(relevance_mask(piece, n - 1)) != b {
                    Err(TableError::RelevantBits { square, piece })
                } else {
                    match first_magic(piece, square, b, s, MAGIC_ATTEMPTS as nat) {
                        Some(magic) => Ok(
                            (
                                found.push(magic),
                                state_after_search(piece, square, b, s, MAGIC_ATTEMPTS as nat),
                            ),
                        ),
                        None => Err(TableError::MagicNotFound { square, piece }),
                    }
                }
            },
        }
    }
}

/// An error of the search stays the error of every longer search.
proof fn lemma_magics_error_stays(piece: u8, bits: Seq<u8>, state: u32, n: nat, m: nat)
    requires
        n <= m,
        magics_upto(piece, bits, state, n) is Err,
    ensures
        magics_upto(piece, bits, state, m) == magics_upto(piece, bits, state, n),
    decreases m,
{
    if n < m {
        lemma_magics_error_stays(piece, bits, state, n, (m - 1) as nat);
    }
}

/// Searches the magic multipliers of `piece` for all squares, after having
/// held the numbers of relevant bits against the relevance masks.
fn find_magic_numbers(piece: u8, relevant_bits: &Vec<u8>, state: &mut u32) -> (r: Result<
    Vec<BitBoard>,
    TableError,
>)
    requires
        piece == Constants::_BISHOP || piece == Constants::_ROOK,
        relevant_bits.len() == 64,
    ensures
        match magics_upto(piece, relevant_bits@, *old(state), 64) {
            Ok((found, s)) => r is Ok && words(r->Ok_0@) == found && *final(state) == s,
            Err(e) => r is Err && r->Err_0 == e,
        },
        r matches Ok(magics) ==> magics.len() == 64 && forall|sq: int|
            0 <= sq < 64 ==> 1 <= #[trigger] relevant_bits[sq] <= (if piece == Constants::_BISHOP {
                9int
            } else {
                12int
            }) && relevant_bits[sq] as nat == popcount(relevance_mask(piece, sq)) && is_magic(
                piece,
                sq as u8,
                relevant_bits[sq],
                magics[sq].0,
            ),
{
    let mut magics: Vec<BitBoard> = Vec::new();
    let mut square: u8 = 0;
    let ghost start = *state;
    assert(words(magics@) =~= Seq::<u64>::empty());
    while square < 64
        invariant
            square <= 64,
            piece == Constants::_BISHOP || piece == Constants::_ROOK,
            relevant_bits.len() == 64,
            magics.len() == square,
            start == *old(state),
            magics_upto(piece, relevant_bits@, start, square as nat) == Ok::<
                (Seq<u64>, u32),
                TableError,
            >((words(magics@), *state)),
            forall|sq: int|
                0 <= sq < square ==> 1 <= #[trigger] relevant_bits[sq] <= (if piece
                    == Constants::_BISHOP {
                    9int
                } else {
                    12int
                }) && relevant_bits[sq] as nat == popcount(relevance_mask(piece, sq)) && is_magic(
                    piece,
                    sq as u8,
                    relevant_bits[sq],
                    magics[sq].0,
                ),
        decreases 64 - square,
    {
        let bits = relevant_bits[square as usize];
        let most: u8 = if piece == Constants::_BISHOP {
            9
        } else {
            12
        };
        let ghost before = words(magics@);
        if bits < 1 || bits > most || mask_sliding_occupancy(square, piece).count_bits() != bits {
            proof {
                lemma_magics_error_stays(piece, relevant_bits@, start, (square + 1) as nat, 64);
            }
            return Err(TableError::RelevantBits { square, piece });
        }
        match find_magic_number(square, bits, piece, state) {
            Some(magic_number) => {
                magics.push(magic_number);
                assert(words(magics@) =~= before.push(magic_number.0));
            },
            None => {
                proof {
                    lemma_magics_error_stays(piece, relevant_bits@, start, (square + 1) as nat, 64);
                }
                return Err(TableError::MagicNotFound { square, piece });
            },
        }
        square += 1;
    }
    Ok(magics)
}

fn blank_table(columns: usize) -> (table: Vec<Vec<BitBoard>>)
    ensures
        rows_of(table@, columns as int),
{
    let mut table: Vec<Vec<BitBoard>> = Vec::new();
    let mut i: usize = 0;
    while i < 64
        invariant
            i <= 64,
            table.len() == i,
            forall|sq: int| 0 <= sq < i ==> (#[trigger] table[sq]).len() == columns,
        decreases 64 - i,
    {
        table.push(vec![BitBoard::new(); columns]);
        i += 1;
    }
    table
}

/// The seed of the generator that the search for magic multipliers starts
/// from.
pub const MAGIC_SEED: u32 = 1804289383;

/// Computes all the tables: the leaper tables, the rank masks, the rays,
/// the magic multipliers of rooks and then of bishops from the fixed seed,
/// and both sliding-attack tables.
pub fn compute_move_data() -> (r: Result<AllMoveData, TableError>)
    ensures
        r matches Ok(data) ==> computed(data@),
        match magics_upto(Constants::_ROOK, given_bits(Constants::_ROOK), MAGIC_SEED, 64) {
            Err(e) => r is Err && r->Err_0 == e,
            Ok((rook_magics, state)) => match magics_upto(
                Constants::_BISHOP,
                given_bits(Constants::_BISHOP),
                state,
                64,
            ) {
                Err(e) => r is Err && r->Err_0 == e,
                Ok((bishop_magics, _)) => r is Ok && r->Ok_0@.rook.magics == rook_magics
                    && r->Ok_0@.bishop.magics == bishop_magics,
            },
        },
{
    let not_files = NotFiles::new();
    assert(not_files == standard_not_files());
    let mut pawn_attacks: Vec<Vec<BitBoard>> = Vec::new();
    pawn_attacks.push(pawn_attack_row(Color::WHITE, &not_files));
    pawn_attacks.push(pawn_attack_row(Color::BLACK, &not_files));
    let mut pawn_moves: Vec<Vec<BitBoard>> = Vec::new();
    pawn_moves.push(pawn_move_row(Color::WHITE));
    pawn_moves.push(pawn_move_row(Color::BLACK));
    let knight_attacks = knight_row(&not_files);
    let king_attacks = king_row(&not_files);

    let bishop_relevant_bits = relevant_bits_of(Constants::_BISHOP);
    let rook_relevant_bits = relevant_bits_of(Constants::_ROOK);

    let mut random_state: u32 = MAGIC_SEED;
    let rook_magic_numbers = match find_magic_numbers(
        Constants::_ROOK,
        &rook_relevant_bits,
        &mut random_state,
    ) {
        Ok(magics) => magics,
        Err(e) => {
            return Err(e);
        },
    };
    let bishop_magic_numbers = match find_magic_numbers(
        Constants::_BISHOP,
        &bishop_relevant_bits,
        &mut random_state,
    ) {
        Ok(magics) => magics,
        Err(e) => {
            return Err(e);
        },
    };
    let mut bishop_masks = vec![BitBoard::new(); 64];
    let mut rook_masks = vec![BitBoard::new(); 64];
    let mut bishop_attacks = blank_table(512);
    let mut rook_attacks = blank_table(4096);
    init_sliders_attacks(
        Constants::_BISHOP,
        &mut bishop_masks,
        &mut rook_masks,
        &mut bishop_attacks,
        &mut rook_attacks,
        &bishop_magic_numbers,
        &bishop_relevant_bits,
    );
    let ghost bishop_table = bishop_attacks@;
    init_sliders_attacks(
        Constants::_ROOK,
        &mut bishop_masks,
        &mut rook_masks,
        &mut bishop_attacks,
        &mut rook_attacks,
        &rook_magic_numbers,
        &rook_relevant_bits,
    );
    proof {
        assert forall|sq: int| 0 <= sq < 64 implies 1 <= #[trigger] bishop_relevant_bits@[sq] <= 12
            && word_rows(bishop_attacks@)[sq].len() >= (1u64 << bishop_relevant_bits@[sq]) by {
            assert(1 <= bishop_relevant_bits[sq] <= 9);
            lemma_slot_bound(0, bishop_relevant_bits@[sq]);
            assert(bishop_attacks@[sq].len() == 512);
        }
        assert forall|sq: int| 0 <= sq < 64 implies 1 <= #[trigger] rook_relevant_bits@[sq] <= 12
            && word_rows(rook_attacks@)[sq].len() >= (1u64 << rook_relevant_bits@[sq]) by {
            assert(1 <= rook_relevant_bits[sq] <= 12);
            lemma_slot_bound(0, rook_relevant_bits@[sq]);
            assert(rook_attacks@[sq].len() == 4096);
        }
    }

    let bishop_attack_data = SlidingAttackData::_new(
        bishop_attacks,
        bishop_magic_numbers,
        bishop_masks,
        bishop_relevant_bits,
    );
    let rook_attack_data = SlidingAttackData::_new(
        rook_attacks,
        rook_magic_numbers,
        rook_masks,
        rook_relevant_bits,
    );
    proof {
        lemma_table_computed(
            Constants::_BISHOP,
            bishop_attack_data@,
            bishop_attacks@,
            bishop_magic_numbers@,
            bishop_masks@,
            bishop_relevant_bits@,
        );
        lemma_table_computed(
            Constants::_ROOK,
            rook_attack_data@,
            rook_attacks@,
            rook_magic_numbers@,
            rook_masks@,
            rook_relevant_bits@,
        );
    }
    let leaping_attack_data = LeapingAttackData {
        pawn_attacks,
        pawn_moves,
        knight: knight_attacks,
        king: king_attacks,
    };
    let mut promotion_ranks: Vec<BitBoard> = Vec::new();
    promotion_ranks.push(BitBoard(0xFF));
    promotion_ranks.push(BitBoard(0xFF00_0000_0000_0000));
    let mut pawn_single_push_ranks: Vec<BitBoard> = Vec::new();
    pawn_single_push_ranks.push(BitBoard(0x0000_FF00_0000_0000));
    pawn_single_push_ranks.push(BitBoard(0x0000_0000_00FF_0000));
    let mut pawn_double_push_ranks: Vec<BitBoard> = Vec::new();
    pawn_double_push_ranks.push(BitBoard(0x0000_00FF_0000_0000));
    pawn_double_push_ranks.push(BitBoard(0x0000_0000_FF00_0000));

    let mut directions: Vec<Vec<BitBoard>> = Vec::new();
    let mut i: usize = 0;
    while i < 8
        invariant
            i <= 8,
            directions.len() == i,
            forall|d: int|
                0 <= d < i ==> (#[trigger] directions[d]).len() == 64 && forall|sq: int|
                    0 <= sq < 64 ==> (#[trigger] directions[d][sq]).0 == ray(
                        sq,
                        direction_of(d).0,
                        direction_of(d).1,
                    ),
        decreases 8 - i,
    {
        directions.push(direction_row(i));
        i += 1;
    }

    let all_move_data = AllMoveData::_new(
        bishop_attack_data,
        rook_attack_data,
        leaping_attack_data,
        promotion_ranks,
        pawn_single_push_ranks,
        pawn_double_push_ranks,
        directions,
    );
    proof {
        let t = all_move_data@;
        assert(t.leaping.pawn_attacks.len() == 2);
        assert(t.leaping.pawn_moves.len() == 2);
        assert(t.wf());
        assert forall|c: int, sq: int| 0 <= c < 2 && 0 <= sq < 64 implies #[trigger] t.leaping.pawn_attacks[c][sq]
            == pawn_attack_set(color_of(c), sq as u8, standard_not_files()) by {
            assert(pawn_attacks@[c]@[sq].0 == pawn_attack_set(color_of(c), sq as u8, not_files));
        }
        assert forall|c: int, sq: int| 0 <= c < 2 && 0 <= sq < 64 implies #[trigger] t.leaping.pawn_moves[c][sq]
            == pawn_push_set(color_of(c), sq as u8, WHITE_HOME, BLACK_HOME) by {
            assert(pawn_moves@[c]@[sq].0 == pawn_push_set(
                color_of(c),
                sq as u8,
                WHITE_HOME,
                BLACK_HOME,
            ));
        }
        assert forall|d: int, sq: int| 0 <= d < 8 && 0 <= sq < 64 implies #[trigger] t.directions[d][sq]
            == ray(sq, direction_of(d).0, direction_of(d).1) by {
            assert(directions@[d]@[sq].0 == ray(sq, direction_of(d).0, direction_of(d).1));
        }
    }
    Ok(all_move_data)
}

/// A table that was filled for every square is the computed table.
proof fn lemma_table_computed(
    piece: u8,
    t: crate::tables::SlidingTable,
    attacks: Seq<Vec<BitBoard>>,
    magics: Seq<BitBoard>,
    masks: Seq<BitBoard>,
    bits: Seq<u8>,
)
    requires
        t == (crate::tables::SlidingTable {
            attacks: word_rows(attacks),
            magics: words(magics),
            masks: words(masks),
            bits: bits,
        }),
        attacks.len() == 64,
        magics.len() == 64,
        masks.len() == 64,
        bits.len() == 64,
        forall|sq: int|
            0 <= sq < 64 ==> 1 <= #[trigger] bits[sq] <= 12 && word_rows(attacks)[sq].len() >= (1u64
                << bits[sq]),
        forall|sq: int| 0 <= sq < 64 ==> (#[trigger] masks[sq]).0 == relevance_mask(piece, sq),
        forall|sq: int|
            0 <= sq < 64 ==> (#[trigger] bits[sq]) as nat == popcount(relevance_mask(piece, sq))
                && is_magic(piece, sq as u8, bits[sq], magics[sq].0),
        filled(piece, attacks, magics, bits, 64),
    ensures
        slider_computed(piece, t),
{
    assert forall|sq: int, i: u64|
        #![trigger occupancy_of(i, t.bits[sq] as nat, relevance_mask(piece, sq))]
        0 <= sq < 64 && i < (1u64 << t.bits[sq]) implies t.attacks[sq][slot_of(
        occupancy_of(i, t.bits[sq] as nat, relevance_mask(piece, sq)),
        t.magics[sq],
        t.bits[sq],
    ) as int] == slider_attacks(
        piece,
        sq,
        occupancy_of(i, t.bits[sq] as nat, relevance_mask(piece, sq)),
    ) by {
        let occupancy = occupancy_of(i, bits[sq] as nat, relevance_mask(piece, sq));
        lemma_slot_bound(wrapping_mul(occupancy, magics[sq].0), bits[sq]);
        assert(attacks[sq]@[slot_of(occupancy, magics[sq].0, bits[sq]) as int].0 == slider_attacks(
            piece,
            sq,
            occupancy,
        ));
    }
}

} // verus!
