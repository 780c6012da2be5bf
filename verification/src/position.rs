//! A chess position as a mathematical value: what stands on each of the 64
//! squares, whose turn it is, the castle rights, the en-passant square and the
//! two move counters; with the transitions of making and unmaking a move and
//! the Zobrist hash of a position.

use crate::bits::lemma_xor_laws;
use crate::common::{Color, Pieces};
use crate::move_encoding::Move;
use crate::tables::Keys;
use vstd::prelude::*;

verus! {

/// What stands on a square: nothing, or a piece of a kind and colour.
pub type Content = Option<(Color, Pieces)>;

/// A position, without the history of how it was reached.
pub struct Position {
    pub squares: Seq<Content>,
    pub side: Color,
    pub castle_rights: u8,
    pub en_passant: Option<u8>,
    pub halfmove: u8,
    pub fullmove: u16,
}

/// What is remembered of a move that was made, to unmake it: the move, the
/// scalars and the hash of the position before it, the square that the
/// captured piece stood on, and the rook's two squares when it was a castle.
pub struct Undo {
    pub move_made: Move,
    pub en_passant: Option<u8>,
    pub castle_rights: u8,
    pub halfmove: u8,
    pub fullmove: u16,
    pub capture_square: u8,
    pub rook_movement: (u8, u8),
    pub hash: u64,
}

/// Where the rook starts and ends when the king castles to `king_target`.
pub open spec fn rook_squares(king_target: u8) -> (u8, u8) {
    if king_target == 62 {
        (63u8, 61u8)
    } else if king_target == 58 {
        (56u8, 59u8)
    } else if king_target == 6 {
        (7u8, 5u8)
    } else {
        (0u8, 3u8)
    }
}

/// Whether a king can end a castle on `square`.
pub open spec fn is_castle_target(square: u8) -> bool {
    square == 62 || square == 58 || square == 6 || square == 2
}

/// The castle right that is lost when a rook leaves `square` or is captured
/// there; 0 for a square that is no corner.
pub open spec fn corner_right(square: u8) -> u8 {
    if square == 0 {
        0b1000
    } else if square == 7 {
        0b100
    } else if square == 56 {
        0b10
    } else if square == 63 {
        0b1
    } else {
        0
    }
}

/// Both castle rights of a side.
pub open spec fn side_rights(side: Color) -> u8 {
    match side {
        Color::WHITE => 0b0011,
        Color::BLACK => 0b1100,
    }
}

/// The piece-square key of what stands on `square`; 0 for an empty square.
pub open spec fn square_key(keys: Keys, content: Content, square: int) -> u64 {
    match content {
        Some((color, piece)) => keys.pieces[color.code() * 6 + piece.code()][square],
        None => 0,
    }
}

/// The exclusive or of the piece-square keys of the pieces on the squares
/// below `n`.
pub open spec fn pieces_hash(keys: Keys, squares: Seq<Content>, n: nat) -> u64
    decreases n,
{
    if n == 0 {
        0
    } else {
        pieces_hash(keys, squares, (n - 1) as nat) ^ square_key(keys, squares[n - 1], n - 1)
    }
}

/// The key of the side to move: the side key for black, nothing for white.
pub open spec fn side_key(keys: Keys, side: Color) -> u64 {
    match side {
        Color::WHITE => 0,
        Color::BLACK => keys.side,
    }
}

/// The key of the en-passant square: that of its file, or nothing.
pub open spec fn en_passant_key(keys: Keys, en_passant: Option<u8>) -> u64 {
    match en_passant {
        Some(square) => keys.en_passant_file[(square % 8) as int],
        None => 0,
    }
}

impl Position {
    /// Sixty-four squares, four bits of rights, and an en-passant square
    /// with a square of the board on either side of it along its file.
    pub open spec fn wf(self) -> bool {
        &&& self.squares.len() == 64
        &&& self.castle_rights < 16
        &&& self.en_passant matches Some(square) ==> 8 <= square < 56
    }

    /// The position with no piece on any square, white to move, all castle
    /// rights, and both counters at zero.
    pub open spec fn empty() -> Position {
        Position {
            squares: Seq::new(64, |i: int| None),
            side: Color::WHITE,
            castle_rights: 0b1111,
            en_passant: None,
            halfmove: 0,
            fullmove: 0,
        }
    }

    /// The Zobrist hash: the keys of all pieces, of the side to move, of the
    /// castle rights and of the en-passant file, combined by exclusive or.
    pub open spec fn hash(self, keys: Keys) -> u64 {
        pieces_hash(keys, self.squares, 64) ^ side_key(keys, self.side)
            ^ keys.castle_rights[self.castle_rights as int] ^ en_passant_key(
            keys,
            self.en_passant,
        )
    }

    /// The square that a captured piece stands on: the target, but for an
    /// en-passant capture the square of the pawn that made the double push.
    pub open spec fn capture_square(self, m: Move) -> u8 {
        if m.en_passant {
            match self.side {
                Color::WHITE => (m.target_square + 8) as u8,
                Color::BLACK => (m.target_square - 8) as u8,
            }
        } else {
            m.target_square
        }
    }

    /// The square that a double push passes over.
    pub open spec fn passed_square(self, m: Move) -> u8 {
        match self.side {
            Color::WHITE => (m.target_square + 8) as u8,
            Color::BLACK => (m.target_square - 8) as u8,
        }
    }

    /// The castle rights after `m`: a rook captured on a corner loses that
    /// corner's right, a king that moves loses both rights of its side, and
    /// a rook that leaves a corner loses that corner's right.
    pub open spec fn rights_after(self, m: Move) -> u8 {
        let after_capture = if m.capture == Some(Pieces::ROOK) {
            self.castle_rights & !corner_right(m.target_square)
        } else {
            self.castle_rights
        };
        if m.piece_moved == Pieces::KING {
            after_capture & !side_rights(self.side)
        } else if m.piece_moved == Pieces::ROOK {
            after_capture & !corner_right(m.source_square)
        } else {
            after_capture
        }
    }

    /// Whether `m` can be made in this position: the piece to move stands
    /// on the source square; the target is empty, or holds the enemy piece
    /// that `m` captures; an en-passant capture lands on the en-passant
    /// square and takes the pawn beside it; a castle finds its rook at home
    /// and the rook's target empty; a double push leaves an en-passant
    /// square inside the board; and neither counter overflows.
    pub open spec fn accepts(self, m: Move) -> bool {
        let us = self.side;
        let them = self.side.other();
        let source = m.source_square as int;
        let target = m.target_square as int;
        &&& m.wf()
        &&& self.squares[source] == Some((us, m.piece_moved))
        &&& if m.en_passant {
            &&& self.en_passant == Some(m.target_square)
            &&& m.capture == Some(Pieces::PAWN)
            &&& self.squares[target] is None
            &&& self.squares[self.capture_square(m) as int] == Some((them, Pieces::PAWN))
        } else {
            match m.capture {
                Some(captured) => self.squares[target] == Some((them, captured)),
                None => self.squares[target] is None,
            }
        }
        &&& m.castle ==> {
            &&& is_castle_target(m.target_square)
            &&& m.piece_moved == Pieces::KING
            &&& m.capture is None
            &&& self.squares[rook_squares(m.target_square).0 as int] == Some((us, Pieces::ROOK))
            &&& self.squares[rook_squares(m.target_square).1 as int] is None
        }
        &&& m.double_push ==> match us {
            Color::WHITE => m.target_square < 48,
            Color::BLACK => m.target_square >= 16,
        }
        &&& m.piece_moved != Pieces::PAWN && m.capture is None ==> self.halfmove < 255
        &&& us == Color::BLACK ==> self.fullmove < 65535
    }

    /// The position after `m` is made.
    pub open spec fn make(self, m: Move) -> Position {
        let us = self.side;
        let placed = match m.promoted_piece {
            Some(promoted) => promoted,
            None => m.piece_moved,
        };
        let lifted = self.squares.update(m.source_square as int, None);
        let captured = if m.capture is Some {
            lifted.update(self.capture_square(m) as int, None)
        } else {
            lifted
        };
        let landed = captured.update(m.target_square as int, Some((us, placed)));
        let castled = if m.castle {
            landed.update(rook_squares(m.target_square).0 as int, None).update(
                rook_squares(m.target_square).1 as int,
                Some((us, Pieces::ROOK)),
            )
        } else {
            landed
        };
        Position {
            squares: castled,
            side: us.other(),
            castle_rights: self.rights_after(m),
            en_passant: if m.double_push {
                Some(self.passed_square(m))
            } else {
                None
            },
            halfmove: if m.piece_moved == Pieces::PAWN || m.capture is Some {
                0
            } else {
                (self.halfmove + 1) as u8
            },
            fullmove: if us == Color::BLACK {
                (self.fullmove + 1) as u16
            } else {
                self.fullmove
            },
        }
    }

    /// What is remembered when `m` is made in this position, whose hash is
    /// `hash`.
    pub open spec fn undo_of(self, m: Move, hash: u64) -> Undo {
        Undo {
            move_made: m,
            en_passant: self.en_passant,
            castle_rights: self.castle_rights,
            halfmove: self.halfmove,
            fullmove: self.fullmove,
            capture_square: self.capture_square(m),
            rook_movement: if m.castle {
                rook_squares(m.target_square)
            } else {
                (0u8, 0u8)
            },
            hash,
        }
    }

    /// The position before the move that `undo` remembers was made.
    pub open spec fn unmake(self, undo: Undo) -> Position {
        let mover = self.side.other();
        let m = undo.move_made;
        let uncastled = if m.castle {
            self.squares.update(undo.rook_movement.1 as int, None).update(
                undo.rook_movement.0 as int,
                Some((mover, Pieces::ROOK)),
            )
        } else {
            self.squares
        };
        let lifted = uncastled.update(m.target_square as int, None);
        let restored = match m.capture {
            Some(captured) => lifted.update(
                undo.capture_square as int,
                Some((self.side, captured)),
            ),
            None => lifted,
        };
        Position {
            squares: restored.update(m.source_square as int, Some((mover, m.piece_moved))),
            side: mover,
            castle_rights: undo.castle_rights,
            en_passant: undo.en_passant,
            halfmove: undo.halfmove,
            fullmove: undo.fullmove,
        }
    }
}

impl Position {
    /// The key of the piece that `m` moves, on its source square.
    pub open spec fn source_key(self, m: Move, keys: Keys) -> u64 {
        square_key(keys, Some((self.side, m.piece_moved)), m.source_square as int)
    }

    /// The key of the piece that `m` captures, on the square it is captured
    /// on; 0 when `m` captures nothing.
    pub open spec fn capture_key(self, m: Move, keys: Keys) -> u64 {
        match m.capture {
            Some(captured) => square_key(
                keys,
                Some((self.side.other(), captured)),
                self.capture_square(m) as int,
            ),
            None => 0,
        }
    }

    /// The key of the piece that lands on the target square: the promoted
    /// piece if `m` promotes, else the piece moved.
    pub open spec fn target_key(self, m: Move, keys: Keys) -> u64 {
        match m.promoted_piece {
            Some(promoted) => square_key(
                keys,
                Some((self.side, promoted)),
                m.target_square as int,
            ),
            None => square_key(keys, Some((self.side, m.piece_moved)), m.target_square as int),
        }
    }

    /// The key of the castling rook on its corner; 0 when `m` is no castle.
    pub open spec fn rook_source_key(self, m: Move, keys: Keys) -> u64 {
        if m.castle {
            square_key(
                keys,
                Some((self.side, Pieces::ROOK)),
                rook_squares(m.target_square).0 as int,
            )
        } else {
            0
        }
    }

    /// The key of the castling rook beside the king; 0 when `m` is no
    /// castle.
    pub open spec fn rook_target_key(self, m: Move, keys: Keys) -> u64 {
        if m.castle {
            square_key(
                keys,
                Some((self.side, Pieces::ROOK)),
                rook_squares(m.target_square).1 as int,
            )
        } else {
            0
        }
    }

    /// The hash after `m`, worked out from the hash before it: the keys of
    /// the old rights and the old en-passant file leave; the keys of the
    /// pieces that leave a square or land on one are exchanged; the keys of
    /// the new en-passant file, of the side and of the new rights enter.
    pub open spec fn hash_after(self, m: Move, keys: Keys, hash: u64) -> u64 {
        hash ^ keys.castle_rights[self.castle_rights as int] ^ en_passant_key(
            keys,
            self.en_passant,
        ) ^ self.source_key(m, keys) ^ self.capture_key(m, keys) ^ self.target_key(m, keys)
            ^ self.rook_source_key(m, keys) ^ self.rook_target_key(m, keys) ^ en_passant_key(
            keys,
            self.make(m).en_passant,
        ) ^ keys.side ^ keys.castle_rights[self.rights_after(m) as int]
    }
}

proof fn lemma_hash_after_move(
    h0: u64,
    p0: u64,
    su: u64,
    st: u64,
    k: u64,
    c0: u64,
    c1: u64,
    e0: u64,
    e1: u64,
    ks: u64,
    kc: u64,
    kt: u64,
    kr1: u64,
    kr2: u64,
)
    by (bit_vector)
    requires
        (su == 0 && st == k) || (su == k && st == 0),
        h0 == p0 ^ su ^ c0 ^ e0,
    ensures
        h0 ^ c0 ^ e0 ^ ks ^ kc ^ kt ^ kr1 ^ kr2 ^ e1 ^ k ^ c1 == (p0 ^ ks ^ 0 ^ kc ^ 0 ^ 0 ^ kt ^ kr1
            ^ 0 ^ 0 ^ kr2) ^ st ^ c1 ^ e1,
        kc == 0 ==> p0 ^ ks ^ 0 ^ kc ^ 0 == p0 ^ ks ^ 0,
        kr1 == 0 && kr2 == 0 ==> p0 ^ ks ^ 0 ^ kc ^ 0 ^ 0 ^ kt ^ kr1 ^ 0 ^ 0 ^ kr2 == p0 ^ ks ^ 0
            ^ kc ^ 0 ^ 0 ^ kt,
{
}

/// The hash of the position after a move is the hash before it with the
/// keys of what changed exchanged: updating the hash move by move gives
/// what hashing the new position from nothing gives.
pub proof fn lemma_make_hash(p: Position, m: Move, keys: Keys)
    requires
        p.wf(),
        p.accepts(m),
        keys.wf(),
    ensures
        p.make(m).hash(keys) == p.hash_after(m, keys, p.hash(keys)),
{
    let us = p.side;
    let them = p.side.other();
    let placed = match m.promoted_piece {
        Some(promoted) => promoted,
        None => m.piece_moved,
    };
    let source = m.source_square as int;
    let target = m.target_square as int;
    let captured_on = p.capture_square(m) as int;
    let s0 = p.squares;
    let s1 = s0.update(source, None);
    let s2 = if m.capture is Some {
        s1.update(captured_on, None)
    } else {
        s1
    };
    let s3 = s2.update(target, Some((us, placed)));
    let (rs, rt) = rook_squares(m.target_square);
    let s4 = if m.castle {
        s3.update(rs as int, None).update(rt as int, Some((us, Pieces::ROOK)))
    } else {
        s3
    };
    assert(p.make(m).squares == s4);
    let ph0 = pieces_hash(keys, s0, 64);
    let ks = p.source_key(m, keys);
    let kc = p.capture_key(m, keys);
    let kt = p.target_key(m, keys);
    let kr1 = p.rook_source_key(m, keys);
    let kr2 = p.rook_target_key(m, keys);
    lemma_pieces_hash_update(keys, s0, source, None, 64);
    assert(pieces_hash(keys, s1, 64) == ph0 ^ ks ^ 0);
    if m.capture is Some {
        assert(s1[captured_on] == Some((them, m.capture->0)));
        lemma_pieces_hash_update(keys, s1, captured_on, None, 64);
    }
    assert(s2[target] is None);
    lemma_pieces_hash_update(keys, s2, target, Some((us, placed)), 64);
    if m.castle {
        assert(s3[rs as int] == Some((us, Pieces::ROOK)));
        assert(s3.update(rs as int, None)[rt as int] is None);
        lemma_pieces_hash_update(keys, s3, rs as int, None, 64);
        lemma_pieces_hash_update(
            keys,
            s3.update(rs as int, None),
            rt as int,
            Some((us, Pieces::ROOK)),
            64,
        );
    }
    lemma_hash_after_move(
        p.hash(keys),
        ph0,
        side_key(keys, us),
        side_key(keys, them),
        keys.side,
        keys.castle_rights[p.castle_rights as int],
        keys.castle_rights[p.rights_after(m) as int],
        en_passant_key(keys, p.en_passant),
        en_passant_key(keys, p.make(m).en_passant),
        ks,
        kc,
        kt,
        kr1,
        kr2,
    );
    assert(pieces_hash(keys, s2, 64) == ph0 ^ ks ^ 0 ^ kc ^ 0);
    assert(pieces_hash(keys, s3, 64) == ph0 ^ ks ^ 0 ^ kc ^ 0 ^ 0 ^ kt);
    assert(pieces_hash(keys, s4, 64) == ph0 ^ ks ^ 0 ^ kc ^ 0 ^ 0 ^ kt ^ kr1 ^ 0 ^ 0 ^ kr2);
}

/// Whether `history` is a record of how `p` was reached: unmaking its last
/// entry gives a well-formed position that accepted the move, in which
/// making the move gives `p` and remembers exactly that entry; and so on
/// down to the first entry.
pub open spec fn chain_ok(p: Position, history: Seq<Undo>, keys: Keys) -> bool
    decreases history.len(),
{
    history.len() > 0 ==> {
        let undo = history.last();
        let before = p.unmake(undo);
        &&& before.wf()
        &&& before.accepts(undo.move_made)
        &&& before.make(undo.move_made) == p
        &&& undo == before.undo_of(undo.move_made, before.hash(keys))
        &&& chain_ok(before, history.drop_last(), keys)
    }
}

proof fn lemma_rights_bound(rights: u8, lost: u8)
    by (bit_vector)
    requires
        rights < 16,
    ensures
        rights & !lost < 16,
{
}

/// Making an accepted move in a well-formed position gives a well-formed
/// position.
pub proof fn lemma_make_wf(p: Position, m: Move)
    requires
        p.wf(),
        p.accepts(m),
    ensures
        p.make(m).wf(),
{
    lemma_rights_bound(p.castle_rights, corner_right(m.target_square));
    lemma_rights_bound(p.castle_rights, side_rights(p.side));
    lemma_rights_bound(p.castle_rights, corner_right(m.source_square));
    lemma_rights_bound(p.castle_rights & !corner_right(m.target_square), side_rights(p.side));
    lemma_rights_bound(
        p.castle_rights & !corner_right(m.target_square),
        corner_right(m.source_square),
    );
}

/// Making a move and then unmaking it gives the position back: every
/// square, the side to move, the castle rights, the en-passant square and
/// both counters.
pub proof fn lemma_make_unmake(p: Position, m: Move, hash: u64)
    requires
        p.wf(),
        p.accepts(m),
    ensures
        p.make(m).unmake(p.undo_of(m, hash)) == p,
{
    let q = p.make(m).unmake(p.undo_of(m, hash));
    assert(q.squares =~= p.squares);
}

/// Changing what stands on one square changes the hash of the pieces by
/// the key of what stood there and the key of what stands there now.
pub proof fn lemma_pieces_hash_update(
    keys: Keys,
    squares: Seq<Content>,
    square: int,
    content: Content,
    n: nat,
)
    requires
        0 <= square < squares.len(),
        n <= squares.len(),
    ensures
        pieces_hash(keys, squares.update(square, content), n) == if square < n {
            pieces_hash(keys, squares, n) ^ square_key(keys, squares[square], square) ^ square_key(
                keys,
                content,
                square,
            )
        } else {
            pieces_hash(keys, squares, n)
        },
    decreases n,
{
    if n > 0 {
        lemma_pieces_hash_update(keys, squares, square, content, (n - 1) as nat);
        let before = pieces_hash(keys, squares, (n - 1) as nat);
        let old_key = square_key(keys, squares[square], square);
        let new_key = square_key(keys, content, square);
        if square == n - 1 {
            lemma_xor_laws(before, old_key, new_key);
            lemma_xor_laws(before ^ old_key, old_key, new_key);
        } else if square < n - 1 {
            let last = square_key(keys, squares[n - 1], n - 1);
            assert(squares.update(square, content)[n - 1] == squares[n - 1]);
            lemma_xor_laws(before ^ old_key, new_key, last);
            lemma_xor_laws(new_key, last, 0);
            lemma_xor_laws(before ^ old_key, last, new_key);
            lemma_xor_laws(before, old_key, last);
            lemma_xor_laws(old_key, last, 0);
            lemma_xor_laws(before, last, old_key);
        }
    }
}

} // verus!

verus! {

/// The hash of the pieces of an empty board is 0.
pub proof fn lemma_pieces_hash_empty(keys: Keys, squares: Seq<Content>, n: nat)
    requires
        n <= squares.len(),
        forall|i: int| 0 <= i < n ==> squares[i] is None,
    ensures
        pieces_hash(keys, squares, n) == 0,
    decreases n,
{
    if n > 0 {
        lemma_pieces_hash_empty(keys, squares, (n - 1) as nat);
        lemma_xor_laws(0, 0, 0);
    }
}

/// The hash of a position with no piece on the board is made of the keys
/// of its scalars alone.
pub proof fn lemma_hash_of_empty_board(p: Position, keys: Keys)
    requires
        p.squares.len() == 64,
        forall|i: int| 0 <= i < 64 ==> p.squares[i] is None,
    ensures
        p.hash(keys) == side_key(keys, p.side) ^ keys.castle_rights[p.castle_rights as int]
            ^ en_passant_key(keys, p.en_passant),
{
    lemma_pieces_hash_empty(keys, p.squares, 64);
    lemma_xor_laws(side_key(keys, p.side), 0, 0);
}

} // verus!
