//! The engine: a game, and the search for a move in it.

pub mod eval_data;
pub mod model;
pub mod move_heuristics;
pub mod transposition_table;

use crate::bits::{lemma_popcount_zero, popcount};
use crate::common::{AllMoveData, Color, Pieces, ZobristHashes};
use crate::engine::eval_data::{material_weight, mobility_weight, EvalData};
use crate::engine::model::{
    higher, lemma_found_slot, loud, quiet_from, quiet_value, search_from, search_value, slots,
    window_after, Found, Slot,
};
use crate::engine::move_heuristics::{ordered, MoveSorter};
use crate::engine::transposition_table::{Bound, TranspositionTable};
use crate::generation::{
    lemma_squares_end, lemma_squares_len, lemma_squares_step, lemma_sum_over_push, squares_of,
    sum_over, views, GameState, Layout,
};
use crate::move_encoding::{EncodedMove, Move};
use crate::move_generation::Game;
use crate::position::{lemma_make_unmake, Position};
use crate::score::Score;
use crate::tables::{Keys, MoveTables};
use std::ops::{Neg, Not};
use vstd::prelude::*;

verus! {

/// How many plies the search goes on past its depth while there are
/// captures, promotions or castles to try.
pub const QUIESCENCE_PLIES: u8 = 32;

/// The depth that a search without a given depth goes to.
pub const DEFAULT_DEPTH: u8 = 6;

/// What one piece of kind `piece` is worth, as a function of its square:
/// its material weight, and its mobility weight for every square that it
/// attacks.
pub open spec fn worth_fn(t: MoveTables, piece: Pieces, side: Color, occupancy: u64) -> spec_fn(
    u8,
) -> int {
    |s: u8|
        material_weight(piece) + popcount(t.attacks(s as int, piece, side, occupancy))
            * mobility_weight(piece)
}

/// What the pieces of `side` of the first `kinds` kinds are worth.
pub open spec fn side_worth(l: Layout, t: MoveTables, side: Color, kinds: nat) -> int
    decreases kinds,
{
    if kinds == 0 {
        0
    } else {
        sum_over(
            side_worth(l, t, side, (kinds - 1) as nat),
            squares_of(l.pieces[side.code()][kinds - 1]),
            worth_fn(t, Pieces::from_code(kinds - 1), side, l.both()),
        )
    }
}

/// The evaluation of a position for the side to move: what its pieces are
/// worth less what the other side's are worth.
pub open spec fn evaluation(p: Position, t: MoveTables) -> int {
    side_worth(p.layout(), t, p.side, 6) - side_worth(p.layout(), t, p.side.other(), 6)
}

/// The move of the first `n` of `moves` after which the position
/// evaluates best for the side that moves, with that evaluation: among
/// the moves that the position accepts, the first of those whose
/// evaluation none of the others exceeds.
pub open spec fn best_by_evaluation(p: Position, t: MoveTables, moves: Seq<Move>, n: nat) -> Option<
    (int, int),
>
    decreases n,
{
    if n == 0 {
        None
    } else {
        let before = best_by_evaluation(p, t, moves, (n - 1) as nat);
        let m = moves[n - 1];
        if !p.accepts(m) {
            before
        } else {
            match before {
                Some((index, value)) => if -evaluation(p.make(m), t) > value {
                    Some((n - 1, -evaluation(p.make(m), t)))
                } else {
                    before
                },
                None => Some((n - 1, -evaluation(p.make(m), t))),
            }
        }
    }
}

/// A mate score as it is stored: with the ply of the mate counted from
/// the position that it is stored for.
pub open spec fn stored_score(score: Score, ply: u32) -> Score {
    match score {
        Score::Checkmate((won, at)) => Score::Checkmate(
            (
                won,
                if at >= ply {
                    (at - ply) as u32
                } else {
                    0u32
                },
            ),
        ),
        _ => score,
    }
}

/// A stored score as it is used at `ply`: with the ply of a mate counted
/// from the root again; nothing if that ply is too large a number, nor if
/// the score is the least number, which cannot be negated.
pub open spec fn retrieved_score(score: Score, ply: u32) -> Option<Score> {
    match score {
        Score::Checkmate((won, at)) => if at + ply <= 0xffff_ffff {
            Some(Score::Checkmate((won, (at + ply) as u32)))
        } else {
            None
        },
        Score::Playing(value) => if value == -0x8000_0000 {
            None
        } else {
            Some(score)
        },
        Score::Draw => Some(score),
    }
}

fn score_to_store(score: Score, ply: u32) -> (r: Score)
    requires
        score.negatable(),
    ensures
        r == stored_score(score, ply),
        r.negatable(),
{
    match score {
        Score::Checkmate((won, at)) => Score::Checkmate(
            (
                won,
                if at >= ply {
                    at - ply
                } else {
                    0
                },
            ),
        ),
        _ => score,
    }
}

fn score_retrieved(score: Score, ply: u32) -> (r: Option<Score>)
    ensures
        r == retrieved_score(score, ply),
        r matches Some(s) ==> s.negatable(),
{
    match score {
        Score::Checkmate((won, at)) => match at.checked_add(ply) {
            Some(sum) => Some(Score::Checkmate((won, sum))),
            None => None,
        },
        Score::Playing(value) => if value == i32::MIN {
            None
        } else {
            Some(score)
        },
        Score::Draw => Some(score),
    }
}

/// An engine: a game, the tables that it evaluates with, and the table of
/// the positions that it has searched.
pub struct Engine {
    name: &'static str,
    author: &'static str,
    game: Game,
    move_data: AllMoveData,
    transposition_table: TranspositionTable,
}

impl Engine {
    /// The position of the engine's game.
    pub closed spec fn position(&self) -> Position {
        self.game@
    }

    /// The tables of the engine.
    pub closed spec fn tables(&self) -> MoveTables {
        self.game.tables()
    }

    /// The hash of the engine's game.
    pub closed spec fn hash_value(&self) -> u64 {
        self.game.hash_value()
    }

    /// The Zobrist keys of the engine's game.
    pub closed spec fn keys(&self) -> Keys {
        self.game.keys()
    }

    /// How many moves of the engine's game have been made and not unmade.
    pub closed spec fn history_len(&self) -> nat {
        self.game.history_view().len()
    }

    /// The table of the positions that the engine has searched.
    pub closed spec fn table(&self) -> TranspositionTable {
        self.transposition_table
    }

    /// The invariant of an engine: its game is valid, and its table of
    /// positions has a slot.
    pub closed spec fn valid(&self) -> bool {
        &&& self.game.valid()
        &&& self.transposition_table.wf()
        &&& self.name@ == "RICE"@
        &&& self.author@ == "Parker White"@
    }

    /// An engine at the starting position, with a table of the default
    /// size.
    pub fn new(move_data: &AllMoveData, hashes: &ZobristHashes) -> (r: Self)
        requires
            move_data@.wf(),
            hashes@.wf(),
        ensures
            r.valid(),
            r.position() == crate::notation::start_position(),
            r.tables() == move_data@,
            r.keys() == hashes@,
            r.history_len() == 0,
            forall|i: int| 0 <= i < r.table()@.len() ==> r.table()@[i] is None,
    {
        let game = Game::new_starting(move_data, hashes);
        Self {
            name: "RICE",
            author: "Parker White",
            game,
            move_data: move_data.clone(),
            transposition_table: TranspositionTable::new(),
        }
    }

    /// An engine at the starting position, with a table of `num_entries`
    /// slots.
    pub fn with_table(move_data: &AllMoveData, hashes: &ZobristHashes, num_entries: usize) -> (r:
        Self)
        requires
            move_data@.wf(),
            hashes@.wf(),
        ensures
            r.valid(),
            r.position() == crate::notation::start_position(),
            r.tables() == move_data@,
            r.keys() == hashes@,
            r.history_len() == 0,
            forall|i: int| 0 <= i < r.table()@.len() ==> r.table()@[i] is None,
    {
        let game = Game::new_starting(move_data, hashes);
        Self {
            name: "RICE",
            author: "Parker White",
            game,
            move_data: move_data.clone(),
            transposition_table: TranspositionTable::with_entries(num_entries),
        }
    }

    /// The hash of a valid engine is the Zobrist hash of its position.
    pub proof fn lemma_hash(&self)
        requires
            self.valid(),
        ensures
            self.hash_value() == self.position().hash(self.keys()),
    {
        self.game.lemma_boards();
    }

    /// The first move that the generator emits in the engine's position,
    /// if the side to move has a king and a move.
    pub open spec fn first_move(&self) -> Option<Move> {
        crate::engine::model::first_of(self.position(), self.tables())
    }

    /// The best move that the table of positions holds for the engine's
    /// position; the first move if it holds none.
    pub open spec fn best_found(&self) -> Option<Move> {
        crate::engine::model::best_of(slots(self.table()@), self.hash_value(), self.first_move())
    }

    /// The first move that the generator finds, if it finds one.
    pub fn get_move(&self) -> (r: Option<EncodedMove>)
        requires
            self.valid(),
        ensures
            match r {
                Some(m) => self.first_move() == Some(m@),
                None => self.first_move() is None,
            },
    {
        proof {
            self.game.lemma_layout_of_view();
        }
        if !self.game.king_present() {
            return None;
        }
        let mut moves: Vec<EncodedMove> = Vec::new();
        self.game.generate_moves(&mut moves);
        assert(views(moves@) =~= self.position().moves(self.tables()));
        if moves.len() == 0 {
            None
        } else {
            Some(moves[0])
        }
    }

    /// Replaces the engine's game.
    pub fn set_game(&mut self, game: Game)
        requires
            old(self).valid(),
            game.valid(),
        ensures
            final(self).valid(),
            final(self).position() == game@,
            final(self).hash_value() == game.hash_value(),
            final(self).history_len() == game.history_view().len(),
            final(self).tables() == game.tables(),
            final(self).keys() == game.keys(),
            final(self).table() == old(self).table(),
    {
        self.game = game;
    }

    /// The game of the engine.
    pub fn game(&self) -> (r: &Game)
        ensures
            r@ == self.position(),
            r.hash_value() == self.hash_value(),
            self.valid() ==> r.valid(),
    {
        &self.game
    }

    /// The engine's game as text.
    pub fn game_string(&self) -> (s: String)
        requires
            self.valid(),
        ensures
            s@ == crate::move_generation::describing::position_text(self.position()),
    {
        self.game.to_string()
    }

    /// The name of the engine and of its author.
    pub fn get_id_info(&self) -> (r: (&'static str, &'static str))
        ensures
            self.valid() ==> r.0@ == "RICE"@ && r.1@ == "Parker White"@,
    {
        (self.name, self.author)
    }

    /// Searches the engine's position to `depth` plies, from the first ply
    /// and with the widest window, and leaves what the search found in
    /// the table of positions. The game is left as it was.
    pub fn search_to_depth(&mut self, depth: u8)
        requires
            old(self).valid(),
        ensures
            final(self).valid(),
            final(self).position() == old(self).position(),
            final(self).hash_value() == old(self).hash_value(),
            final(self).history_len() == old(self).history_len(),
            final(self).tables() == old(self).tables(),
            final(self).keys() == old(self).keys(),
            slots(final(self).table()@) == crate::engine::model::searched(
                old(self).position(),
                old(self).tables(),
                old(self).keys(),
                slots(old(self).table()@),
                depth,
            ),
    {
        self.search(depth, 0, Score::least(), Score::greatest());
    }

    /// The best move that the table of positions holds for the engine's
    /// position; the first generated move if it holds none.
    pub fn get_best_found_move(&self) -> (r: Option<EncodedMove>)
        requires
            self.valid(),
        ensures
            match r {
                Some(m) => self.best_found() == Some(m@),
                None => self.best_found() is None,
            },
    {
        proof {
            lemma_found_slot(self.transposition_table@, self.game.hash_value(), 0);
        }
        if let Some(game_entry) = self.transposition_table.lookup(self.game.hash(), 0) {
            if let Some(m) = game_entry.best_move {
                return Some(m);
            }
        }
        self.get_move()
    }

    /// The move after which the position evaluates best for the side that
    /// moves, without any search; the game is left as it was.
    pub fn no_search_best_eval(&mut self) -> (r: Option<EncodedMove>)
        requires
            old(self).valid(),
        ensures
            final(self).valid(),
            final(self).position() == old(self).position(),
            final(self).hash_value() == old(self).hash_value(),
            final(self).history_len() == old(self).history_len(),
            final(self).tables() == old(self).tables(),
            final(self).table() == old(self).table(),
            old(self).position().has_king() ==> match best_by_evaluation(
                old(self).position(),
                old(self).tables(),
                old(self).position().moves(old(self).tables()),
                old(self).position().moves(old(self).tables()).len(),
            ) {
                Some((index, value)) => r is Some && r->0@ == old(self).position().moves(
                    old(self).tables(),
                )[index],
                None => r is None,
            },
            !old(self).position().has_king() ==> r is None,
    {
        proof {
            self.game.lemma_layout_of_view();
        }
        if !self.game.king_present() {
            return None;
        }
        let ghost p = self.game@;
        let ghost h = self.game.hash_value();
        let ghost trail = self.game.history_view();
        let mut moves: Vec<EncodedMove> = Vec::new();
        self.game.generate_moves(&mut moves);
        assert(views(moves@) =~= p.moves(self.tables()));
        let ghost t = self.tables();
        let ghost all = views(moves@);
        let mut best_move: Option<EncodedMove> = None;
        let mut max_eval = Score::least();
        let mut i: usize = 0;
        while i < moves.len()
            invariant
                i <= moves.len(),
                self.valid(),
                self.game@ == p,
                self.game.hash_value() == h,
                self.game.history_view() == trail,
                self.game.tables() == old(self).game.tables(),
                t == self.game.tables(),
                all == views(moves@),
                self.transposition_table == old(self).transposition_table,
                match best_by_evaluation(p, t, all, i as nat) {
                    Some((index, value)) => 0 <= index < i && best_move == Some(moves@[index])
                        && max_eval == Score::Playing(value as i32) && -1000000 < value
                        < 1000000,
                    None => best_move is None,
                },
            decreases moves.len() - i,
        {
            let m = moves[i];
            proof {
                self.game.lemma_boards();
                assert(all[i as int] == m@);
            }
            if self.game.accepts_move(&m) {
                self.game.make_move(&m);
                let eval = self.evaluate_position().neg();
                self.game.unmake_move();
                proof {
                    lemma_make_unmake(p, m@, h);
                    assert(self.game.history_view() =~= trail);
                }
                if best_move.is_none() || eval > max_eval {
                    best_move = Some(m);
                    max_eval = eval;
                }
            }
            i += 1;
        }
        best_move
    }

    /// The evaluation of the engine's position for the side to move.
    fn evaluate_position(&self) -> (r: Score)
        requires
            self.valid(),
        ensures
            r == Score::Playing(evaluation(self.position(), self.tables()) as i32),
            -1000000 < evaluation(self.position(), self.tables()) < 1000000,
            r.negatable(),
    {
        let side = self.game.side_to_move();
        proof {
            self.game.lemma_layout_wf();
        }
        Score::Playing(self.evaluate_side(side) - self.evaluate_side(side.not()))
    }

    fn evaluate_side(&self, side: Color) -> (score: i32)
        requires
            self.valid(),
        ensures
            score == side_worth(self.position().layout(), self.tables(), side, 6),
            0 <= score <= 6 * 64 * 1156,
    {
        proof {
            self.game.lemma_layout_of_view();
            self.game.lemma_layout_wf();
        }
        let ghost l = self.position().layout();
        let ghost t = self.tables();
        let both = self.game.both_occupancy();
        let mut score: i32 = 0;
        let mut piece_index: u8 = 0;
        while piece_index < 6
            invariant
                piece_index <= 6,
                self.valid(),
                l == self.game.layout(),
                t == self.game.tables(),
                t.wf(),
                both.0 == l.both(),
                score == side_worth(l, t, side, piece_index as nat),
                0 <= score <= piece_index * 64 * 1156,
            decreases 6 - piece_index,
        {
            let piece_type = Pieces::int_to_piece(piece_index);
            let mut piece_positions = self.game.get_piece_positions(side, piece_type);
            let ghost all = squares_of(piece_positions.0);
            let ghost mut done = Seq::<u8>::empty();
            let ghost start = score as int;
            let ghost f = worth_fn(t, piece_type, side, l.both());
            proof {
                lemma_squares_len(piece_positions.0);
            }
            assert(done + squares_of(piece_positions.0) =~= all);
            while piece_positions.not_zero()
                invariant
                    piece_index < 6,
                    self.valid(),
                    t == self.game.tables(),
                    t.wf(),
                    both.0 == l.both(),
                    all.len() <= 64,
                    f == worth_fn(t, piece_type, side, l.both()),
                    done + squares_of(piece_positions.0) == all,
                    score == sum_over(start, done, f),
                    0 <= start <= piece_index * 64 * 1156,
                    start <= score <= start + done.len() * 1156,
                decreases piece_positions.0,
            {
                let ghost before = piece_positions.0;
                let piece_square = piece_positions.pop_ls1b().unwrap();
                proof {
                    lemma_squares_step(before, done, all);
                    lemma_sum_over_push(start, done, piece_square, f);
                    done = done.push(piece_square);
                    assert(done.len() <= all.len());
                }
                let attacks = self.game.move_data().get_attacks(
                    piece_square,
                    &piece_type,
                    side,
                    &both,
                );
                let num_controlled_squares = attacks.count_bits();
                let material = EvalData::material_value(piece_type);
                let mobility = EvalData::mobility_value(piece_type);
                proof {
                    lemma_popcount_zero(attacks.0);
                    assert(0 <= num_controlled_squares * mobility <= 256) by (nonlinear_arith)
                        requires
                            0 <= num_controlled_squares <= 64,
                            0 <= mobility <= 4,
                    ;
                }
                score += material;
                score += num_controlled_squares as i32 * mobility;
            }
            proof {
                lemma_squares_end(done, all);
            }
            piece_index += 1;
        }
        score
    }

    /// Searches the engine's position to `depth` plies and then through
    /// the captures, promotions and castles that follow, within the window
    /// from `alpha` to `beta`; returns the score for the side to move,
    /// leaves what it found in the table of positions, and leaves the
    /// game as it was.
    fn search(&mut self, depth: u8, ply: u32, alpha: Score, beta: Score) -> (best: Score)
        requires
            old(self).valid(),
            alpha.negatable(),
            beta.negatable(),
            ply + depth + QUIESCENCE_PLIES < 0xffff_ffff,
        ensures
            best == search_value(
                old(self).position(),
                old(self).tables(),
                old(self).keys(),
                slots(old(self).table()@),
                depth,
                ply,
                alpha,
                beta,
            ).0,
            slots(final(self).table()@) == search_value(
                old(self).position(),
                old(self).tables(),
                old(self).keys(),
                slots(old(self).table()@),
                depth,
                ply,
                alpha,
                beta,
            ).1,
            final(self).valid(),
            final(self).position() == old(self).position(),
            final(self).hash_value() == old(self).hash_value(),
            final(self).history_len() == old(self).history_len(),
            final(self).tables() == old(self).tables(),
            final(self).keys() == old(self).keys(),
            final(self).game.history_view() == old(self).game.history_view(),
            best.negatable(),
        decreases depth, QUIESCENCE_PLIES + 1,
    {
        let ghost entry_alpha = alpha;
        let ghost entry_beta = beta;
        let ghost p = self.game@;
        let ghost t = self.game.tables();
        let ghost keys = self.game.keys();
        let ghost h = self.game.hash_value();
        let ghost trail = self.game.history_view();
        let ghost table = slots(self.transposition_table@);
        let mut alpha = alpha;
        let mut beta = beta;
        let alpha_at_entry = alpha;
        let hash = self.game.hash();
        proof {
            self.game.lemma_boards();
            lemma_found_slot(self.transposition_table@, hash, depth);
        }
        let ghost window = window_after(
            crate::engine::model::found_slot(table, hash, depth),
            ply,
            entry_alpha,
            entry_beta,
        );
        if let Some(entry) = self.transposition_table.lookup(hash, depth) {
            if let Some(score) = score_retrieved(entry.score, ply) {
                match entry.bound {
                    Bound::Exact => {
                        return score;
                    },
                    Bound::Lower => {
                        if score > alpha {
                            alpha = score;
                        }
                    },
                    Bound::Upper => {
                        if score < beta {
                            beta = score;
                        }
                    },
                }
                if alpha >= beta {
                    return score;
                }
            }
        }
        assert(window.settled is None && window.alpha == alpha && window.beta == beta);
        if depth == 0 {
            return self.quiescence(QUIESCENCE_PLIES, ply, alpha, beta);
        }
        proof {
            self.game.lemma_layout_of_view();
        }
        if !self.game.king_present() {
            return Score::Checkmate((false, ply));
        }
        let mut moves: Vec<EncodedMove> = Vec::new();
        let game_state = self.game.generate_moves(&mut moves);
        proof {
            self.game.lemma_layout_wf();
            assert(views(moves@) =~= p.moves(t));
        }
        match game_state {
            GameState::Checkmate => {
                return Score::Checkmate((false, ply));
            },
            GameState::Draw => {
                return Score::Draw;
            },
            GameState::Normal => (),
        }
        let moves = MoveSorter::sort(moves);
        let ghost tried = views(moves@);
        let mut best = Score::least();
        let mut best_move: Option<EncodedMove> = None;
        let ghost wanted = search_from(
            p,
            t,
            keys,
            tried,
            0,
            depth,
            ply,
            alpha,
            beta,
            Found { best, best_move: None, table },
        );
        let mut cut = false;
        let mut i: usize = 0;
        while i < moves.len() && !cut
            invariant
                i <= moves.len(),
                depth > 0,
                ply + depth + QUIESCENCE_PLIES < 0xffff_ffff,
                self.valid(),
                self.game@ == p,
                self.game.hash_value() == h,
                self.game.history_view() == trail,
                self.game.tables() == old(self).game.tables(),
                self.game.keys() == old(self).game.keys(),
                t == self.game.tables(),
                keys == self.game.keys(),
                alpha.negatable(),
                beta.negatable(),
                best.negatable(),
                tried == views(moves@),
                wanted == if cut {
                    Found {
                        best,
                        best_move: crate::engine::model::move_view(best_move),
                        table: slots(self.transposition_table@),
                    }
                } else {
                    search_from(
                        p,
                        t,
                        keys,
                        tried,
                        i as nat,
                        depth,
                        ply,
                        alpha,
                        beta,
                        Found {
                            best,
                            best_move: crate::engine::model::move_view(best_move),
                            table: slots(self.transposition_table@),
                        },
                    )
                },
            decreases moves.len() - i,
        {
            let m = moves[i];
            proof {
                self.game.lemma_boards();
                assert(tried[i as int] == m@);
            }
            if self.game.accepts_move(&m) {
                self.game.make_move(&m);
                let score = self.search(depth - 1, ply + 1, beta.neg(), alpha.neg()).neg();
                self.game.unmake_move();
                proof {
                    lemma_make_unmake(p, m@, h);
                    assert(self.game.history_view() =~= trail);
                    crate::score::lemma_negated_key(score.negated());
                }
                if score > best {
                    best = score;
                    best_move = Some(m);
                }
                if score > alpha {
                    alpha = score;
                }
                if alpha >= beta {
                    cut = true;
                }
            }
            i += 1;
        }
        let bound = if best <= alpha_at_entry {
            Bound::Upper
        } else if best >= beta {
            Bound::Lower
        } else {
            Bound::Exact
        };
        let ghost before = self.transposition_table@;
        self.transposition_table.store(hash, score_to_store(best, ply), bound, depth, best_move);
        proof {
            assert(0 <= crate::engine::transposition_table::slot_of_hash(before.len(), hash)
                < before.len());
            assert(slots(self.transposition_table@) =~= slots(before).update(
                crate::engine::transposition_table::slot_of_hash(before.len(), hash),
                Some(
                    Slot {
                        hash,
                        depth,
                        score: stored_score(best, ply),
                        bound,
                        best_move: crate::engine::model::move_view(best_move),
                    },
                ),
            ));
        }
        best
    }

    /// Searches the captures, promotions and castles of the engine's
    /// position for at most `budget` plies more, starting from the
    /// evaluation of the position as it stands.
    fn quiescence(&mut self, budget: u8, ply: u32, alpha: Score, beta: Score) -> (best: Score)
        requires
            old(self).valid(),
            alpha.negatable(),
            beta.negatable(),
            ply + budget < 0xffff_ffff,
        ensures
            best == quiet_value(old(self).position(), old(self).tables(), budget, ply, alpha, beta),
            final(self).valid(),
            final(self).position() == old(self).position(),
            final(self).hash_value() == old(self).hash_value(),
            final(self).history_len() == old(self).history_len(),
            final(self).tables() == old(self).tables(),
            final(self).keys() == old(self).keys(),
            final(self).game.history_view() == old(self).game.history_view(),
            final(self).transposition_table == old(self).transposition_table,
            best.negatable(),
        decreases 0nat, budget,
    {
        let ghost entry_alpha = alpha;
        let mut alpha = alpha;
        proof {
            self.game.lemma_layout_of_view();
        }
        if !self.game.king_present() {
            return Score::Checkmate((false, ply));
        }
        let ghost p = self.game@;
        let ghost t = self.game.tables();
        let ghost h = self.game.hash_value();
        let ghost trail = self.game.history_view();
        let mut moves: Vec<EncodedMove> = Vec::new();
        let game_state = self.game.generate_moves(&mut moves);
        assert(views(moves@) =~= p.moves(t));
        match game_state {
            GameState::Checkmate => {
                return Score::Checkmate((false, ply));
            },
            GameState::Draw => {
                return Score::Draw;
            },
            GameState::Normal => (),
        }
        let stand_pat = self.evaluate_position();
        if budget == 0 || stand_pat >= beta {
            return stand_pat;
        }
        if stand_pat > alpha {
            alpha = stand_pat;
        }
        let moves = MoveSorter::sort(moves);
        let ghost tried = views(moves@);
        let ghost wanted = quiet_value(p, t, budget, ply, entry_alpha, beta);
        assert(alpha == higher(entry_alpha, stand_pat));
        assert(tried == ordered(p.moves(t)));
        assert(wanted == quiet_from(p, t, tried, 0, budget, ply, alpha, beta, stand_pat));
        let mut best = stand_pat;
        let mut cut = false;
        let mut i: usize = 0;
        while i < moves.len() && !cut
            invariant
                i <= moves.len(),
                budget > 0,
                ply + budget < 0xffff_ffff,
                self.valid(),
                self.game@ == p,
                self.game.hash_value() == h,
                self.game.history_view() == trail,
                self.game.tables() == old(self).game.tables(),
                self.game.keys() == old(self).game.keys(),
                t == self.game.tables(),
                self.transposition_table == old(self).transposition_table,
                alpha.negatable(),
                beta.negatable(),
                best.negatable(),
                tried == views(moves@),
                wanted == if cut {
                    best
                } else {
                    quiet_from(p, t, tried, i as nat, budget, ply, alpha, beta, best)
                },
            decreases moves.len() - i,
        {
            let m = moves[i];
            proof {
                self.game.lemma_boards();
                assert(tried[i as int] == m@);
            }
            if (m.capture().is_some() || m.promoted_piece().is_some() || m.castle())
                && self.game.accepts_move(&m) {
                assert(loud(p, m@));
                self.game.make_move(&m);
                let score = self.quiescence(budget - 1, ply + 1, beta.neg(), alpha.neg()).neg();
                self.game.unmake_move();
                proof {
                    lemma_make_unmake(p, m@, h);
                    assert(self.game.history_view() =~= trail);
                }
                if score > best {
                    best = score;
                }
                if score > alpha {
                    alpha = score;
                }
                if alpha >= beta {
                    cut = true;
                }
            } else {
                assert(!loud(p, m@));
            }
            i += 1;
        }
        best
    }
}

} // verus!
