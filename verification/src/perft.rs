//! Counting the leaves of the tree of moves.

use crate::generation::{views, GameState};
use crate::move_encoding::{EncodedMove, Move};
use crate::move_generation::Game;
use crate::position::{lemma_make_unmake, Position};
use crate::tables::MoveTables;
use vstd::prelude::*;

verus! {

/// The number of leaves of the tree of moves of depth `depth` below `p`:
/// one at depth 0; none below a position that is drawn or lost, or where
/// the side to move has no king; else those below the positions that the
/// generated moves lead to.
pub open spec fn perft(p: Position, t: MoveTables, depth: nat) -> nat
    decreases depth, 0nat,
{
    if depth == 0 {
        1
    } else if !p.has_king() || p.state(t) != GameState::Normal {
        0
    } else {
        perft_over(p, t, p.moves(t), (depth - 1) as nat)
    }
}

/// The number of leaves of depth `depth` below the positions that the
/// moves of `moves` lead to from `p`; a move that `p` does not accept
/// leads nowhere.
pub open spec fn perft_over(p: Position, t: MoveTables, moves: Seq<Move>, depth: nat) -> nat
    decreases depth, 1 + moves.len(),
{
    if moves.len() == 0 {
        0
    } else {
        perft_over(p, t, moves.drop_last(), depth) + if p.accepts(moves.last()) {
            perft(p.make(moves.last()), t, depth)
        } else {
            0
        }
    }
}

/// `n` as a 64-bit count, which saturates.
pub open spec fn saturated(n: nat) -> u64 {
    if n <= 0xffff_ffff_ffff_ffff {
        n as u64
    } else {
        0xffff_ffff_ffff_ffffu64
    }
}

/// Counts the leaves of the tree of moves of depth `depth` below the
/// position of `game`, and leaves the game as it was. The count saturates
/// at the largest 64-bit number.
pub fn count_nodes(depth: u32, game: &mut Game) -> (nodes: u64)
    requires
        old(game).valid(),
    ensures
        nodes == saturated(perft(old(game)@, old(game).tables(), depth as nat)),
        final(game).valid(),
        final(game)@ == old(game)@,
        final(game).hash_value() == old(game).hash_value(),
        final(game).history_view() == old(game).history_view(),
        final(game).tables() == old(game).tables(),
        final(game).keys() == old(game).keys(),
    decreases depth,
{
    if depth == 0 {
        return 1;
    }
    proof {
        game.lemma_layout_of_view();
    }
    if !game.king_present() {
        return 0;
    }
    let ghost p = game@;
    let ghost t = game.tables();
    let ghost h = game.hash_value();
    let ghost trail = game.history_view();
    let mut move_list: Vec<EncodedMove> = Vec::new();
    let game_state = game.generate_moves(&mut move_list);
    assert(views(move_list@) =~= p.moves(t));
    if game_state != GameState::Normal {
        return 0;
    }
    let mut node_count: u64 = 0;
    let mut i: usize = 0;
    assert(views(move_list@).take(0) =~= Seq::<Move>::empty());
    while i < move_list.len()
        invariant
            i <= move_list.len(),
            depth > 0,
            game.valid(),
            game@ == p,
            game.tables() == t,
            game.keys() == old(game).keys(),
            game.hash_value() == h,
            game.history_view() == trail,
            node_count == saturated(perft_over(p, t, views(move_list@).take(i as int), (depth - 1) as nat)),
        decreases move_list.len() - i,
    {
        let new_move = move_list[i];
        let ghost done = views(move_list@).take(i as int);
        proof {
            assert(views(move_list@).take(i + 1).drop_last() =~= done);
            assert(views(move_list@).take(i + 1).last() == new_move@);
            game.lemma_boards();
        }
        if game.accepts_move(&new_move) {
            game.make_move(&new_move);
            let below = count_nodes(depth - 1, game);
            game.unmake_move();
            proof {
                lemma_make_unmake(p, new_move@, h);
                assert(game.history_view() =~= trail);
            }
            node_count = node_count.saturating_add(below);
        }
        i += 1;
    }
    assert(views(move_list@).take(move_list.len() as int) =~= views(move_list@));
    node_count
}

} // verus!
