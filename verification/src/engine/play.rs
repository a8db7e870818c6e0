//! A game played with the engine: the position, the positions reached so far and how the
//! game stands after the last move.
use crate::board::SearchBoard;
use crate::board_repr::is_king_of;
use crate::engine::evaluate::{Outcome, board_outcome, outcome, outcome_of};
use crate::engine::searcher::{SearchContext, SearchModel, lemma_shallow_search_safe, safe_search, search_node};
use crate::engine::sorting::{lemma_sort_keeps, lemma_sort_map, lemma_sort_sorted, sort_by_key, sort_entries};
use crate::engine::transposition_table::TranspositionTable;
use crate::engine::weights::EvalWeights;
use crate::engine::{add_board_to_repetition, times_seen};
use crate::fen::{FenPosition, fen_clock, fen_position, first_king_from, holds_fen, lemma_first_king_found};
use crate::moving::Move;
use crate::perft::{after, contains_move, lemma_first_king_bound, made, node_ok};
use crate::piece::{Piece, PieceType, Side};
use crate::search::{checks_of, generation_check, generation_ok, lemma_legal_moves_on_board, moves_in, moves_valid};
use crate::tables::MoveTables;
use crate::zobrist::ZobristRandom;
use std::collections::HashMap;
use vstd::prelude::*;

verus! {

broadcast use vstd::std_specs::hash::group_hash_axioms;

/// A game as values: the board, how often each position was reached, and how the game
/// stands.
pub struct GameModel {
    pub board: SearchBoard,
    pub reps: Map<u64, u8>,
    pub outcome: Outcome,
}

/// A position read from FEN that move generation can start from: no pawn of the side to
/// move on the first or last rank.
pub open spec fn fen_ready(p: FenPosition) -> bool {
    forall|i: int| 0 <= i < 64 && #[trigger] p.squares[i] == Some(Piece { side: p.side, piece_type: PieceType::Pawn })
        ==> 8 <= i < 56
}

/// The score of the root move `m` for the side making it: the negated result of the search
/// `depth` plies deep below it over the full window, with the visits `reps` and an empty
/// transposition table.
#[verifier::opaque]
pub open spec fn root_score(board: SearchBoard, reps: Map<u64, u8>, m: Move, depth: int, keys: ZobristRandom, w: EvalWeights) -> i64 {
    let start = root_search(board, reps, m, keys);
    (-search_node(start, depth, (i64::MIN + 1) as i64, i64::MAX, keys, w, 2).0) as i64
}

/// The search below root move `m`, as `root_score` makes it.
pub open spec fn root_search(board: SearchBoard, reps: Map<u64, u8>, m: Move, keys: ZobristRandom) -> SearchModel {
    SearchModel { board: after(board, m, keys), reps, tt: Map::empty(), nodes: 0 }
}

/// Whether the search below every legal move of `board`, `depth` plies deep, meets no won game
/// whose score leaves the range of `i64`; see `safe_node`.
pub open spec fn root_safe(board: SearchBoard, reps: Map<u64, u8>, depth: int, keys: ZobristRandom, w: EvalWeights) -> bool {
    forall|m: Move| #[trigger] moves_in(board.state, false).contains(m)
        ==> safe_search(root_search(board, reps, m, keys), depth, (i64::MIN + 1) as i64, i64::MAX, keys, w, 2)
}

/// Every search fewer than 100 plies deep below the root moves is safe.
pub proof fn lemma_shallow_root_safe(board: SearchBoard, reps: Map<u64, u8>, depth: int, keys: ZobristRandom, w: EvalWeights)
    requires
        0 <= depth <= 99,
    ensures
        root_safe(board, reps, depth, keys, w),
{
    assert forall|m: Move| #[trigger] moves_in(board.state, false).contains(m)
        implies safe_search(root_search(board, reps, m, keys), depth, (i64::MIN + 1) as i64, i64::MAX, keys, w, 2) by {
        lemma_shallow_search_safe(root_search(board, reps, m, keys), depth, (i64::MIN + 1) as i64, i64::MAX, keys, w, 2);
    }
}

/// The root moves with their scores, keyed by the negated score.
pub open spec fn scored(ms: Seq<Move>, board: SearchBoard, reps: Map<u64, u8>, depth: int, keys: ZobristRandom, w: EvalWeights) -> Seq<(i64, (Move, i64))> {
    ms.map_values(|m: Move| ((-root_score(board, reps, m, depth, keys, w)) as i64, (m, root_score(board, reps, m, depth, keys, w))))
}

/// The legal moves of `board` with their scores, best first; equal scores keep the order of
/// generation.
pub open spec fn best_moves(board: SearchBoard, reps: Map<u64, u8>, depth: int, keys: ZobristRandom, w: EvalWeights) -> Seq<(Move, i64)> {
    sort_by_key(scored(moves_in(board.state, false), board, reps, depth, keys, w)).map_values(|e: (i64, (Move, i64))| e.1)
}

/// What making `mov` in the game `g` answers, and the game after it: a finished game answers
/// how it ended; an illegal move, or one that leads to a game that goes on where move
/// generation cannot start (no king or a pawn on the back rank for the side to move), is
/// refused; else the move is made, its position counted once more, and the game stands as
/// `board_outcome` says.
pub open spec fn move_result(g: GameModel, mov: Move, keys: ZobristRandom) -> (Option<Outcome>, GameModel) {
    if !(g.outcome is Ongoing) {
        (Some(g.outcome), g)
    } else if !moves_in(g.board.state, false).contains(mov) {
        (None, g)
    } else {
        let b1 = after(g.board, mov, keys);
        let z1 = b1.state.zobrist;
        let reps1 = g.reps.insert(z1, (times_seen(g.reps, z1) + 1) as u8);
        if b1.halfmove_clock < 50 && times_seen(reps1, z1) != 3 && !generation_ok(b1.state) {
            (None, g)
        } else {
            let o = board_outcome(b1, reps1);
            (Some(o), GameModel { board: b1, reps: reps1, outcome: o })
        }
    }
}

/// A game: the board, the visits of positions, how the game stands after the last move, and
/// the tables, hash keys and evaluation numbers it is played with.
pub struct Game {
    board: SearchBoard,
    repetitions: HashMap<u64, u8>,
    last_move_outcome: Outcome,
    tables: MoveTables,
    keys: ZobristRandom,
    weights: EvalWeights,
}

/// The legal moves of `board`, and whether its side to move is in check.
fn all_moves(board: &SearchBoard, tables: &MoveTables) -> (r: (Vec<Move>, bool))
    requires
        tables.wf(),
        generation_ok(board.state),
    ensures
        r.0@ == moves_in(board.state, false),
        moves_valid(r.0@),
        r.1 == !(checks_of(board.state) is NoCheck),
{
    let (pin_state, check_paths) = board.state.legal_data(tables);
    let is_check = check_paths.is_check();
    let moves = board.find_all_moves(pin_state, check_paths, false, tables);
    proof {
        let st = board.state;
        let wk = choose|i: int| 0 <= i < 64 && is_king_of(#[trigger] st.board.board[i], st.side);
        lemma_first_king_bound(st.board.board@, st.side, wk);
        lemma_legal_moves_on_board(st, pin_state, check_paths, false);
    }
    (moves, is_check)
}

/// `find_best_moves` ranks every legal move, each as often as it is generated.
pub proof fn lemma_best_moves_rank_every_move(board: SearchBoard, reps: Map<u64, u8>, depth: int, keys: ZobristRandom, w: EvalWeights)
    ensures
        best_moves(board, reps, depth, keys, w).map_values(|e: (Move, i64)| e.0).to_multiset()
            =~= moves_in(board.state, false).to_multiset(),
{
    let ms = moves_in(board.state, false);
    let sc = scored(ms, board, reps, depth, keys, w);
    let f = |e: (i64, (Move, i64))| e.1.0;
    lemma_sort_map(sc, f);
    assert(best_moves(board, reps, depth, keys, w).map_values(|e: (Move, i64)| e.0) =~= sort_by_key(sc).map_values(f));
    assert(sc.map_values(f) =~= ms);
}

impl Game {
    /// The game as values.
    pub closed spec fn model(&self) -> GameModel {
        GameModel { board: self.board, reps: self.repetitions@, outcome: self.last_move_outcome }
    }

    /// The hash keys the game is played with.
    pub closed spec fn spec_keys(&self) -> ZobristRandom {
        self.keys
    }

    /// The evaluation numbers the game is played with.
    pub closed spec fn spec_weights(&self) -> EvalWeights {
        self.weights
    }

    /// The move tables the game is played with.
    pub closed spec fn spec_tables(&self) -> MoveTables {
        self.tables
    }

    /// The tables are built and the numbers bounded; no position was reached more than three
    /// times; while the game goes on, no position was reached more than twice and move
    /// generation can start from the board.
    pub closed spec fn wf(&self) -> bool {
        &&& self.tables.wf()
        &&& self.weights.wf()
        &&& forall|k: u64| #[trigger] self.repetitions@.contains_key(k) ==> self.repetitions@[k] <= 3
        &&& self.last_move_outcome is Ongoing ==> {
            &&& node_ok(self.board)
            &&& forall|k: u64| #[trigger] self.repetitions@.contains_key(k) ==> self.repetitions@[k] <= 2
        }
    }

    /// The game from the position `fen` describes, with no position reached yet, standing as
    /// `board_outcome` says.
    pub fn from_fen(fen: &str, tables: MoveTables, keys: ZobristRandom, weights: EvalWeights) -> (r: Self)
        requires
            fen@.len() < 0x1000_0000_0000_0000,
            fen_position(fen@) matches Some(p) && fen_ready(p),
            fen_clock(fen@) is Some,
            tables.wf(),
            weights.wf(),
        ensures
            r.wf(),
            holds_fen(r.model().board.state, fen_position(fen@).unwrap()),
            r.model().board.state.zobrist == keys.hash_of(r.model().board.state),
            r.model().board.halfmove_clock == fen_clock(fen@).unwrap(),
            r.model().reps == Map::<u64, u8>::empty(),
            r.model().outcome == board_outcome(r.model().board, Map::empty()),
            r.spec_keys() == keys,
            r.spec_weights() == weights,
            r.spec_tables() == tables,
    {
        let board = SearchBoard::from_fen(fen, &keys);
        proof {
            let p = fen_position(fen@).unwrap();
            let st = board.state;
            let wk = first_king_from(p.squares, Side::White, 0);
            let bk = first_king_from(p.squares, Side::Black, 0);
            lemma_first_king_found(p.squares, Side::White, 0);
            lemma_first_king_found(p.squares, Side::Black, 0);
            if st.side == Side::White {
                assert(is_king_of(st.board.board[wk], st.side));
            } else {
                assert(is_king_of(st.board.board[bk], st.side));
            }
            assert(crate::search::pawns_inside(st));
            assert(0 <= wk < 64 && 0 <= bk < 64);
            assert(st.white_king.index == wk && st.black_king.index == bk);
            assert(crate::search::recorded_king(st, st.side).valid());
            assert(st.en_passant_square matches Some(e) ==> e.valid());
        }
        let repetitions: HashMap<u64, u8> = HashMap::new();
        let (moves, is_check) = all_moves(&board, &tables);
        let last_move_outcome = outcome(&board, moves.len() > 0, is_check, &repetitions);
        Self { board, repetitions, last_move_outcome, tables, keys, weights }
    }

    pub fn get_board(&self) -> (r: &SearchBoard)
        ensures
            *r == self.model().board,
    {
        &self.board
    }

    /// How the game stands after the last move.
    pub fn outcome(&self) -> (r: Outcome)
        ensures
            r == self.model().outcome,
    {
        self.last_move_outcome
    }

    /// Makes `mov`; see `move_result`. The answer is how the game stands afterwards, or
    /// nothing when the move was refused.
    pub fn make_move(&mut self, mov: &Move) -> (r: Option<Outcome>)
        requires
            old(self).wf(),
        ensures
            final(self).wf(),
            (r, final(self).model()) == move_result(old(self).model(), *mov, old(self).spec_keys()),
            final(self).spec_keys() == old(self).spec_keys(),
            final(self).spec_weights() == old(self).spec_weights(),
            final(self).spec_tables() == old(self).spec_tables(),
    {
        if self.last_move_outcome.is_game_over() {
            return Some(self.last_move_outcome);
        }
        let (legal_moves, _) = all_moves(&self.board, &self.tables);
        if !contains_move(&legal_moves, mov) {
            return None;
        }
        let b1 = made(&self.board, mov, &self.keys);
        let z1 = b1.state.zobrist;
        let seen: u8 = match self.repetitions.get(&z1) {
            Some(c) => *c,
            None => 0,
        };
        let ends = b1.halfmove_clock >= 50 || seen + 1 == 3;
        if !ends && !generation_check(&b1.state) {
            return None;
        }
        add_board_to_repetition(&mut self.repetitions, &b1);
        let o = if ends {
            Outcome::Stalemate
        } else {
            let (moves, is_check) = all_moves(&b1, &self.tables);
            outcome(&b1, moves.len() > 0, is_check, &self.repetitions)
        };
        self.board = b1;
        self.last_move_outcome = o;
        Some(o)
    }

    /// The legal moves with their scores, best first; see `best_moves`. Nothing once the game
    /// is over.
    pub fn find_best_moves(&mut self, depth: i32) -> (r: Option<Vec<(Move, i64)>>)
        requires
            old(self).wf(),
            old(self).model().outcome is Ongoing ==> root_safe(old(self).model().board, old(self).model().reps, depth as int,
                old(self).spec_keys(), old(self).spec_weights()),
        ensures
            *final(self) == *old(self),
            old(self).model().outcome is Ongoing <==> r is Some,
            r matches Some(v) ==> v@ == best_moves(old(self).model().board, old(self).model().reps, depth as int,
                old(self).spec_keys(), old(self).spec_weights()),
            r matches Some(v) ==> forall|i: int, j: int| 0 <= i <= j < v@.len() ==> (#[trigger] v@[i]).1 >= (#[trigger] v@[j]).1,
    {
        if self.last_move_outcome.is_game_over() {
            return None;
        }
        Some(self.scored_moves(depth))
    }

    /// The best move with its score: the first of `find_best_moves`.
    pub fn find_best_move(&mut self, depth: i32) -> (r: Option<(Move, i64)>)
        requires
            old(self).wf(),
            old(self).model().outcome is Ongoing ==> root_safe(old(self).model().board, old(self).model().reps, depth as int,
                old(self).spec_keys(), old(self).spec_weights()),
        ensures
            *final(self) == *old(self),
            r == (if old(self).model().outcome is Ongoing && best_moves(old(self).model().board, old(self).model().reps,
                depth as int, old(self).spec_keys(), old(self).spec_weights()).len() > 0 {
                Some(best_moves(old(self).model().board, old(self).model().reps, depth as int, old(self).spec_keys(),
                    old(self).spec_weights())[0])
            } else {
                None
            }),
    {
        match self.find_best_moves(depth) {
            Some(moves) => if moves.len() > 0 {
                Some(moves[0])
            } else {
                None
            },
            None => None,
        }
    }

    /// Makes the best move and answers how the game stands. A finished game stays as it is;
    /// with no move to make, the game ends as `outcome_of` says of a position without moves.
    pub fn make_best_move(&mut self, depth: i32) -> (r: Outcome)
        requires
            old(self).wf(),
            old(self).model().outcome is Ongoing ==> root_safe(old(self).model().board, old(self).model().reps, depth as int,
                old(self).spec_keys(), old(self).spec_weights()),
        ensures
            final(self).wf(),
            r == final(self).model().outcome,
            final(self).spec_keys() == old(self).spec_keys(),
            final(self).spec_weights() == old(self).spec_weights(),
            final(self).spec_tables() == old(self).spec_tables(),
            ({
                let g = old(self).model();
                let best = best_moves(g.board, g.reps, depth as int, old(self).spec_keys(), old(self).spec_weights());
                if !(g.outcome is Ongoing) {
                    final(self).model() == g
                } else if best.len() == 0 {
                    final(self).model() == GameModel {
                        outcome: outcome_of(g.board, false, !(checks_of(g.board.state) is NoCheck), g.reps),
                        ..g
                    }
                } else {
                    final(self).model() == move_result(g, best[0].0, old(self).spec_keys()).1
                }
            }),
    {
        if self.last_move_outcome.is_game_over() {
            return self.last_move_outcome;
        }
        match self.find_best_move(depth) {
            Some((mov, _)) => {
                self.make_move(&mov);
            },
            None => {
                let (_, check_paths) = self.board.state.legal_data(&self.tables);
                self.last_move_outcome = outcome(&self.board, false, check_paths.is_check(), &self.repetitions);
            },
        }
        self.last_move_outcome
    }

    /// The score of the legal move `m`; see `root_score`.
    fn score_move(&self, m: Move, depth: i32) -> (r: i64)
        requires
            self.wf(),
            self.model().outcome is Ongoing,
            m.from.valid(),
            m.to.valid(),
            safe_search(root_search(self.model().board, self.model().reps, m, self.spec_keys()), depth as int,
                (i64::MIN + 1) as i64, i64::MAX, self.spec_keys(), self.spec_weights(), 2),
        ensures
            r == root_score(self.model().board, self.model().reps, m, depth as int, self.spec_keys(), self.spec_weights()),
            i64::MIN < r,
    {
        let mut ctx = SearchContext::new(self.board, self.repetitions.clone(), m, TranspositionTable::new(), &self.keys);
        let (_, e) = ctx.evaluate(depth, depth, &self.tables, &self.keys, &self.weights);
        proof {
            reveal(root_score);
        }
        e
    }

    /// The scored legal moves, best first; the game must go on.
    fn scored_moves(&self, depth: i32) -> (r: Vec<(Move, i64)>)
        requires
            self.wf(),
            self.model().outcome is Ongoing,
            root_safe(self.model().board, self.model().reps, depth as int, self.spec_keys(), self.spec_weights()),
        ensures
            r@ == best_moves(self.model().board, self.model().reps, depth as int, self.spec_keys(), self.spec_weights()),
            forall|i: int, j: int| 0 <= i <= j < r@.len() ==> (#[trigger] r@[i]).1 >= (#[trigger] r@[j]).1,
    {
        let (moves, _) = all_moves(&self.board, &self.tables);
        let ghost ms = moves@;
        let ghost board = self.board;
        let ghost reps = self.repetitions@;
        let mut entries: Vec<(i64, (Move, i64))> = Vec::new();
        let mut i: usize = 0;
        while i < moves.len()
            invariant
                i <= ms.len(),
                moves@ == ms,
                moves_valid(ms),
                self.wf(),
                self.model().outcome is Ongoing,
                board == self.board,
                reps == self.repetitions@,
                ms == moves_in(board.state, false),
                root_safe(board, reps, depth as int, self.keys, self.weights),
                entries@ == scored(ms, board, reps, depth as int, self.keys, self.weights).take(i as int),
                forall|k: int| 0 <= k < i ==> (#[trigger] entries@[k]).0 == -entries@[k].1.1,
            decreases ms.len() - i,
        {
            let m = moves[i];
            assert(moves_in(board.state, false).contains(ms[i as int]));
            let e = self.score_move(m, depth);
            entries.push((-e, (m, e)));
            assert(entries@ =~= scored(ms, board, reps, depth as int, self.keys, self.weights).take(i + 1));
            i += 1;
        }
        assert(scored(ms, board, reps, depth as int, self.keys, self.weights).take(ms.len() as int)
            =~= scored(ms, board, reps, depth as int, self.keys, self.weights));
        let sorted = sort_entries(&entries);
        let ghost exact = |e: (i64, (Move, i64))| e.0 == -e.1.1;
        proof {
            assert forall|k: int| 0 <= k < entries@.len() implies exact(#[trigger] entries@[k]) by {}
            lemma_sort_keeps(entries@, exact);
            lemma_sort_sorted(entries@);
        }
        let mut out: Vec<(Move, i64)> = Vec::new();
        let mut j: usize = 0;
        while j < sorted.len()
            invariant
                j <= sorted@.len(),
                out@ == sorted@.take(j as int).map_values(|e: (i64, (Move, i64))| e.1),
            decreases sorted@.len() - j,
        {
            out.push(sorted[j].1);
            assert(out@ =~= sorted@.take(j + 1).map_values(|e: (i64, (Move, i64))| e.1));
            j += 1;
        }
        assert(sorted@.take(sorted@.len() as int) =~= sorted@);
        proof {
            assert forall|i: int, j: int| 0 <= i <= j < out@.len() implies (#[trigger] out@[i]).1 >= (#[trigger] out@[j]).1 by {
                assert(exact(sorted@[i]) && exact(sorted@[j]));
                assert(sorted@[i].0 <= sorted@[j].0);
            }
        }
        out
    }
}

} // verus!
