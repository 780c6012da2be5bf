//! Lines of play: making the moves of a line one after another, and
//! unmaking them again in turn.

use crate::move_encoding::Move;
use crate::position::{chain_ok, lemma_make_unmake, lemma_make_wf, Position, Undo};
use crate::tables::Keys;
use vstd::prelude::*;

verus! {

/// The position after the moves of `line` have been made in `p`, one
/// after another.
pub open spec fn after(p: Position, line: Seq<Move>) -> Position
    decreases line.len(),
{
    if line.len() == 0 {
        p
    } else {
        after(p, line.drop_last()).make(line.last())
    }
}

/// Whether every move of `line` is accepted by the position that it is
/// made in.
pub open spec fn playable(p: Position, line: Seq<Move>) -> bool
    decreases line.len(),
{
    line.len() > 0 ==> playable(p, line.drop_last()) && after(p, line.drop_last()).accepts(
        line.last(),
    )
}

/// What is remembered of the moves of `line` as they are made in `p`:
/// of each move what its position remembers, with the hash of that
/// position.
pub open spec fn remembered(p: Position, line: Seq<Move>, keys: Keys) -> Seq<Undo>
    decreases line.len(),
{
    if line.len() == 0 {
        Seq::empty()
    } else {
        remembered(p, line.drop_last(), keys).push(
            after(p, line.drop_last()).undo_of(
                line.last(),
                after(p, line.drop_last()).hash(keys),
            ),
        )
    }
}

/// The position after the last `n` of the moves remembered have been
/// unmade in `q`, the last first.
pub open spec fn unwound(q: Position, undos: Seq<Undo>, n: nat) -> Position
    decreases n,
{
    if n == 0 || undos.len() == 0 {
        q
    } else {
        unwound(q.unmake(undos.last()), undos.drop_last(), (n - 1) as nat)
    }
}

/// Every position along a playable line is well formed, and as many
/// moves are remembered as were made.
pub proof fn lemma_line_wf(p: Position, line: Seq<Move>, keys: Keys)
    requires
        p.wf(),
        playable(p, line),
    ensures
        after(p, line).wf(),
        remembered(p, line, keys).len() == line.len(),
    decreases line.len(),
{
    if line.len() > 0 {
        lemma_line_wf(p, line.drop_last(), keys);
        lemma_make_wf(after(p, line.drop_last()), line.last());
    }
}

/// Unmaking the last `n` moves of a playable line gives the position
/// that stood before them, and the hash that is remembered of the first
/// of those moves is the hash of that position: after every move of the
/// line has been unmade, the position and its hash are those that the
/// line started from.
pub proof fn lemma_line_unwinds(p: Position, line: Seq<Move>, keys: Keys, n: nat)
    requires
        p.wf(),
        playable(p, line),
        n <= line.len(),
    ensures
        unwound(after(p, line), remembered(p, line, keys), n) == after(
            p,
            line.take(line.len() - n),
        ),
        n > 0 ==> remembered(p, line, keys)[line.len() - n].hash == after(
            p,
            line.take(line.len() - n),
        ).hash(keys),
        n == line.len() ==> unwound(after(p, line), remembered(p, line, keys), n) == p,
    decreases n,
{
    lemma_line_wf(p, line, keys);
    assert(line.take(line.len() as int) =~= line);
    assert(line.take(0) =~= Seq::<Move>::empty());
    if n > 0 {
        let shorter = line.drop_last();
        let before = after(p, shorter);
        lemma_line_wf(p, shorter, keys);
        lemma_make_unmake(before, line.last(), before.hash(keys));
        assert(remembered(p, line, keys).drop_last() =~= remembered(p, shorter, keys));
        lemma_line_unwinds(p, shorter, keys, (n - 1) as nat);
        assert(shorter.take(shorter.len() - (n - 1)) =~= line.take(line.len() - n));
        if n > 1 {
            assert(remembered(p, line, keys)[line.len() - n] == remembered(p, shorter, keys)[
                shorter.len() - (n - 1)
            ]);
        } else {
            assert(shorter =~= line.take(line.len() - 1));
        }
    }
}

/// What is remembered of a playable line is a record of how its last
/// position was reached.
pub proof fn lemma_line_is_chained(p: Position, line: Seq<Move>, keys: Keys)
    requires
        p.wf(),
        playable(p, line),
    ensures
        chain_ok(after(p, line), remembered(p, line, keys), keys),
    decreases line.len(),
{
    if line.len() > 0 {
        let shorter = line.drop_last();
        let before = after(p, shorter);
        lemma_line_wf(p, shorter, keys);
        lemma_make_unmake(before, line.last(), before.hash(keys));
        lemma_line_is_chained(p, shorter, keys);
        assert(remembered(p, line, keys).drop_last() =~= remembered(p, shorter, keys));
    }
}

} // verus!
