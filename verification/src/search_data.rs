//! Pins against the king and checks on it.
use crate::bits::is_set;
use crate::board::{BoardState, bbs_of, other};
use crate::board_repr::{BISHOP, KNIGHT, PAWN, QUEEN, ROOK, union6};
use crate::magic_bitboards::{MagicData, bishop_attack, rook_attack};
use crate::piece::Side;
use crate::position::{Offset, Position};
use crate::search_masks::{choose_pawn_take_mask, knight_offsets, masks_of, pawn_offsets, targets};
use crate::tables::MoveTables;
use vstd::prelude::*;

verus! {

/// The pin rays through the side to move's pieces, one bitboard per direction, and whether an
/// en passant capture is free of pins.
#[derive(Debug, Clone, Copy, PartialEq, Eq, Structural)]
pub struct PinState {
    pub diagonal_1: u64,
    pub diagonal_2: u64,
    pub x_aligned: u64,
    pub y_aligned: u64,
    pub can_en_passant: bool,
}

/// The checks on a king: none, one that can be blocked or taken on the given squares, or more.
#[derive(Debug, Clone, Copy, PartialEq, Eq, Structural)]
pub enum CheckPath {
    Multiple,
    Blockable(u64),
    NoCheck,
}

impl PinState {
    /// The pin ray through `pos`, in the order diagonal, anti-diagonal, file, rank; 0 when
    /// no ray holds it.
    pub open spec fn relevant(self, pos: Position) -> u64 {
        if is_set(self.diagonal_1, pos.index as u64) {
            self.diagonal_1
        } else if is_set(self.diagonal_2, pos.index as u64) {
            self.diagonal_2
        } else if is_set(self.x_aligned, pos.index as u64) {
            self.x_aligned
        } else if is_set(self.y_aligned, pos.index as u64) {
            self.y_aligned
        } else {
            0
        }
    }

    /// The pin ray through `pos`; 0 when `pos` is not pinned.
    pub fn choose_relevant(&self, pos: Position) -> (r: u64)
        requires
            pos.valid(),
        ensures
            r == self.relevant(pos),
    {
        let mask = pos.as_mask();
        if self.diagonal_1 & mask != 0 {
            return self.diagonal_1;
        } else if self.diagonal_2 & mask != 0 {
            return self.diagonal_2;
        } else if self.x_aligned & mask != 0 {
            return self.x_aligned;
        } else if self.y_aligned & mask != 0 {
            return self.y_aligned;
        }
        0
    }

    /// All pin rays.
    pub fn combined(&self) -> (r: u64)
        ensures
            r == self.diagonal_1 | self.diagonal_2 | self.x_aligned | self.y_aligned,
    {
        self.diagonal_1 | self.diagonal_2 | self.x_aligned | self.y_aligned
    }
}

impl Default for PinState {
    fn default() -> (r: Self)
        ensures
            r == (PinState { diagonal_1: 0, diagonal_2: 0, x_aligned: 0, y_aligned: 0, can_en_passant: true }),
    {
        Self { diagonal_1: 0, diagonal_2: 0, x_aligned: 0, y_aligned: 0, can_en_passant: true }
    }
}

impl Default for CheckPath {
    fn default() -> (r: Self)
        ensures
            r == CheckPath::NoCheck,
    {
        CheckPath::NoCheck
    }
}

/// One more check: the first makes the path, a second makes several.
pub open spec fn push_check(p: CheckPath, x: u64) -> CheckPath {
    match p {
        CheckPath::NoCheck => CheckPath::Blockable(x),
        _ => CheckPath::Multiple,
    }
}

/// The checks a list of check paths makes.
pub open spec fn classify(c: Seq<u64>) -> CheckPath {
    if c.len() == 0 {
        CheckPath::NoCheck
    } else if c.len() == 1 {
        CheckPath::Blockable(c[0])
    } else {
        CheckPath::Multiple
    }
}

/// Keeps the masks that meet `atk`.
pub open spec fn hits(atk: u64) -> spec_fn(u64) -> Option<u64> {
    |m: u64| if atk & m != 0 { Some(m) } else { None }
}

/// For the squares that hold one of `attackers`, their slider check paths.
pub open spec fn slider_hits(attackers: u64, rook: bool, king: Position, cast: u64) -> spec_fn(Position) -> Option<u64> {
    |p: Position| if attackers & p.mask() != 0 { Some(slider_path(rook, p, king, cast)) } else { None }
}

/// The check paths on the king on `king` by the pieces of `side`: knights, then pawns (by the
/// squares from which they take on `king`), then bishops and queens on diagonals, then rooks and
/// queens on lines. A slider's path is the squares between it and the king, and its own.
pub open spec fn check_candidates(b: BoardState, king: Position, side: Side) -> Seq<u64> {
    let atk = bbs_of(b, side);
    let allies = union6(bbs_of(b, other(side)));
    let enemies = union6(atk);
    let kn = masks_of(targets(king, knight_offsets())).filter_map(hits(atk[KNIGHT as int]));
    let pw = masks_of(targets(king, pawn_offsets(other(side)))).filter_map(hits(atk[PAWN as int]));
    let diag = atk[BISHOP as int] | atk[QUEEN as int];
    let dd = bishop_attack(king, allies | enemies | diag);
    let dg = (dd.takes + dd.ends).filter_map(slider_hits(diag, false, king, dd.bitboard));
    let par = atk[ROOK as int] | atk[QUEEN as int];
    let pd = rook_attack(king, allies | enemies | par);
    let pr = (pd.takes + pd.ends).filter_map(slider_hits(par, true, king, pd.bitboard));
    kn + pw + dg + pr
}

proof fn lemma_filter_map_take_len<A, B>(s: Seq<A>, f: spec_fn(A) -> Option<B>, i: int)
    requires
        0 <= i <= s.len(),
    ensures
        s.take(i).filter_map(f).len() <= s.filter_map(f).len(),
    decreases s.len() - i,
{
    if i < s.len() {
        s.lemma_filter_map_take_succ(f, i);
        lemma_filter_map_take_len(s, f, i + 1);
    } else {
        assert(s.take(i) =~= s);
    }
}

/// The checks after more check paths, one at a time.
pub open spec fn fold_checks(p: CheckPath, s: Seq<u64>) -> CheckPath
    decreases s.len(),
{
    if s.len() == 0 {
        p
    } else {
        push_check(fold_checks(p, s.drop_last()), s.last())
    }
}

proof fn lemma_fold_multiple(s: Seq<u64>)
    ensures
        fold_checks(CheckPath::Multiple, s) == CheckPath::Multiple,
    decreases s.len(),
{
    if s.len() > 0 {
        lemma_fold_multiple(s.drop_last());
    }
}

proof fn lemma_fold_classify(s: Seq<u64>)
    ensures
        fold_checks(CheckPath::NoCheck, s) == classify(s),
    decreases s.len(),
{
    if s.len() > 0 {
        lemma_fold_classify(s.drop_last());
    }
}

proof fn lemma_fold_append(p: CheckPath, a: Seq<u64>, b: Seq<u64>)
    ensures
        fold_checks(p, a + b) == fold_checks(fold_checks(p, a), b),
    decreases b.len(),
{
    if b.len() == 0 {
        assert(a + b =~= a);
    } else {
        assert((a + b).drop_last() =~= a + b.drop_last());
        lemma_fold_append(p, a, b.drop_last());
    }
}

/// The masks among `parts` that meet `atk`, folded into `path`.
fn scan_parts(path: CheckPath, parts: &Vec<u64>, atk: u64) -> (r: CheckPath)
    ensures
        r == fold_checks(path, parts@.filter_map(hits(atk))),
{
    let ghost f = hits(atk);
    let mut cur = path;
    let mut i: usize = 0;
    assert(parts@.take(0) =~= Seq::<u64>::empty());
    while i < parts.len()
        invariant
            i <= parts@.len(),
            cur == fold_checks(path, parts@.take(i as int).filter_map(f)),
            f == hits(atk),
        decreases parts@.len() - i,
    {
        proof {
            parts@.lemma_filter_map_take_succ(f, i as int);
        }
        let m = parts[i];
        let ghost pre = parts@.take(i as int).filter_map(f);
        proof {
            assert(parts@.take(i + 1).filter_map(f) =~= pre + (match f(m) { Some(v) => seq![v], None => Seq::empty() }));
            if atk & m != 0 {
                assert(f(m) == Some(m));
                assert((pre + seq![m]).drop_last() =~= pre);
                assert((pre + seq![m]).last() == m);
                assert(fold_checks(path, pre + seq![m]) == push_check(fold_checks(path, pre), m));
            } else {
                assert(f(m) is None);
                assert(pre + Seq::<u64>::empty() =~= pre);
            }
        }
        if atk & m != 0 {
            cur = match cur {
                CheckPath::NoCheck => CheckPath::Blockable(m),
                _ => {
                    proof {
                        let rest = parts@.subrange(i + 1, parts@.len() as int);
                        assert(fold_checks(path, parts@.take(i + 1).filter_map(f)) == CheckPath::Multiple);
                        assert(parts@ =~= parts@.take(i + 1) + rest);
                        lemma_fold_append(path, parts@.take(i + 1).filter_map(f), rest.filter_map(f));
                        lemma_filter_map_append(parts@.take(i + 1), rest, f);
                        lemma_fold_multiple(rest.filter_map(f));
                        assert(fold_checks(path, parts@.filter_map(f)) == CheckPath::Multiple);
                        assert(parts@.filter_map(f) == parts@.filter_map(hits(atk)));
                    }
                    return CheckPath::Multiple;
                },
            };
        }
        i += 1;
    }
    assert(parts@.take(parts@.len() as int) =~= parts@);
    cur
}

proof fn lemma_filter_map_append<A, B>(a: Seq<A>, b: Seq<A>, f: spec_fn(A) -> Option<B>)
    ensures
        (a + b).filter_map(f) == a.filter_map(f) + b.filter_map(f),
    decreases b.len(),
{
    if b.len() == 0 {
        assert(a + b =~= a);
        assert(a.filter_map(f) + b.filter_map(f) =~= a.filter_map(f));
    } else {
        assert((a + b).drop_last() =~= a + b.drop_last());
        lemma_filter_map_append(a, b.drop_last(), f);
        assert((a + b).filter_map(f) =~= a.filter_map(f) + b.filter_map(f));
    }
}

/// The check path of a diagonal (or, with `rook`, straight) slider on `p`: the squares between
/// it and the king within `cast`, and its own square.
pub open spec fn slider_path(rook: bool, p: Position, king: Position, cast: u64) -> u64 {
    let reach = if rook { rook_attack(p, king.mask()).bitboard } else { bishop_attack(p, king.mask()).bitboard };
    (reach & cast) | p.mask()
}

/// The paths of the squares among `ps` that hold one of `attackers`, folded into `path`.
fn scan_sliders(
    path: CheckPath,
    ps: &Vec<Position>,
    attackers: u64,
    king_pos: Position,
    cast: u64,
    rook: bool,
    tables: &MoveTables,
) -> (r: CheckPath)
    requires
        tables.wf(),
        king_pos.valid(),
        forall|j: int| 0 <= j < ps@.len() ==> (#[trigger] ps@[j]).valid(),
    ensures
        r == fold_checks(path, ps@.filter_map(slider_hits(attackers, rook, king_pos, cast))),
{
    let ghost f = slider_hits(attackers, rook, king_pos, cast);
    let mut cur = path;
    let king_mask = king_pos.as_mask();
    let mut i: usize = 0;
    assert(ps@.take(0) =~= Seq::<Position>::empty());
    while i < ps.len()
        invariant
            i <= ps@.len(),
            tables.wf(),
            king_pos.valid(),
            king_mask == king_pos.mask(),
            forall|j: int| 0 <= j < ps@.len() ==> (#[trigger] ps@[j]).valid(),
            cur == fold_checks(path, ps@.take(i as int).filter_map(f)),
            f == slider_hits(attackers, rook, king_pos, cast),
        decreases ps@.len() - i,
    {
        proof {
            ps@.lemma_filter_map_take_succ(f, i as int);
        }
        let p = ps[i];
        let ghost pre = ps@.take(i as int).filter_map(f);
        proof {
            assert(ps@.take(i + 1).filter_map(f) =~= pre + (match f(p) { Some(v) => seq![v], None => Seq::empty() }));
            if attackers & p.mask() != 0 {
                assert(f(p) == Some(slider_path(rook, p, king_pos, cast)));
                assert((pre + seq![slider_path(rook, p, king_pos, cast)]).drop_last() =~= pre);
                assert((pre + seq![slider_path(rook, p, king_pos, cast)]).last() == slider_path(rook, p, king_pos, cast));
            } else {
                assert(pre + Seq::<u64>::empty() =~= pre);
            }
        }
        if attackers & p.as_mask() != 0 {
            let reach = if rook {
                tables.magic.get_rook(p, king_mask).bitboard
            } else {
                tables.magic.get_bishop(p, king_mask).bitboard
            };
            let x = (reach & cast) | p.as_mask();
            cur = match cur {
                CheckPath::NoCheck => CheckPath::Blockable(x),
                _ => {
                    proof {
                        let rest = ps@.subrange(i + 1, ps@.len() as int);
                        assert(fold_checks(path, ps@.take(i + 1).filter_map(f)) == CheckPath::Multiple);
                        assert(ps@ =~= ps@.take(i + 1) + rest);
                        lemma_fold_append(path, ps@.take(i + 1).filter_map(f), rest.filter_map(f));
                        lemma_filter_map_append(ps@.take(i + 1), rest, f);
                        lemma_fold_multiple(rest.filter_map(f));
                    }
                    return CheckPath::Multiple;
                },
            };
        }
        i += 1;
    }
    assert(ps@.take(ps@.len() as int) =~= ps@);
    cur
}

impl CheckPath {
    pub fn is_check(&self) -> (r: bool)
        ensures
            r == !(*self is NoCheck),
    {
        match self {
            CheckPath::NoCheck => false,
            _ => true,
        }
    }

    /// The checks on the king on `king_pos` by the pieces of `side`.
    pub fn find(board: &BoardState, king_pos: Position, side: Side, tables: &MoveTables) -> (r: Self)
        requires
            tables.wf(),
            king_pos.valid(),
        ensures
            r == classify(check_candidates(*board, king_pos, side)),
    {
        let bitboards = board.side_bitboards(side);
        let allies = board.side_bitboards(side.opposite()).combined();
        let enemies = bitboards.combined();
        let ghost atk = bbs_of(*board, side);

        let knights = &tables.masks.knight[king_pos.index as usize].parts;
        let p1 = scan_parts(CheckPath::NoCheck, knights, bitboards.state[KNIGHT]);
        let pawn_table = choose_pawn_take_mask(&tables.masks, side.opposite());
        let pawns = &pawn_table[king_pos.index as usize].parts;
        let p2 = scan_parts(p1, pawns, bitboards.state[PAWN]);

        let diagonal_attackers = bitboards.state[BISHOP] | bitboards.state[QUEEN];
        let diagonal_data = tables.magic.get_bishop(king_pos, allies | enemies | diagonal_attackers);
        let diagonals = diagonal_data.possible_takes();
        proof {
            crate::magic_bitboards::lemma_attack_valid(false, king_pos, allies | enemies | diagonal_attackers);
        }
        let p3 = scan_sliders(p2, &diagonals, diagonal_attackers, king_pos, diagonal_data.bitboard, false, tables);

        let parallel_attackers = bitboards.state[ROOK] | bitboards.state[QUEEN];
        let parallel_data = tables.magic.get_rook(king_pos, allies | enemies | parallel_attackers);
        let parallels = parallel_data.possible_takes();
        proof {
            crate::magic_bitboards::lemma_attack_valid(true, king_pos, allies | enemies | parallel_attackers);
        }
        let p4 = scan_sliders(p3, &parallels, parallel_attackers, king_pos, parallel_data.bitboard, true, tables);
        proof {
            let c = check_candidates(*board, king_pos, side);
            let kn = knights@.filter_map(hits(atk[KNIGHT as int]));
            let pw = pawns@.filter_map(hits(atk[PAWN as int]));
            let dg = diagonals@.filter_map(slider_hits(diagonal_attackers, false, king_pos, diagonal_data.bitboard));
            let pr = parallels@.filter_map(slider_hits(parallel_attackers, true, king_pos, parallel_data.bitboard));
            assert(c =~= kn + pw + dg + pr);
            lemma_fold_append(CheckPath::NoCheck, kn, pw);
            lemma_fold_append(CheckPath::NoCheck, kn + pw, dg);
            lemma_fold_append(CheckPath::NoCheck, kn + pw + dg, pr);
            lemma_fold_classify(c);
        }
        p4
    }
}


/// Whether `i` lies on the diagonal through `k` that runs from lower left to upper right.
pub open spec fn same_diagonal_quadrant(i: Position, k: Position) -> bool {
    (i.col() < k.col() && i.row() < k.row()) || (i.col() > k.col() && i.row() > k.row())
}

/// The pin rays of the squares among `ps` that hold one of `attackers`, split into two
/// directions: with `rook` the file of `king` and the rest, else the diagonal of
/// `same_diagonal_quadrant` and the rest.
pub open spec fn pin_fold(ps: Seq<Position>, attackers: u64, rook: bool, king: Position, cast: u64) -> (u64, u64)
    decreases ps.len(),
{
    if ps.len() == 0 {
        (0, 0)
    } else {
        let (a, b) = pin_fold(ps.drop_last(), attackers, rook, king, cast);
        let i = ps.last();
        if attackers & i.mask() != 0 {
            let v = slider_path(rook, i, king, cast);
            let first = if rook { i.col() == king.col() } else { same_diagonal_quadrant(i, king) };
            if first {
                (a | v, b)
            } else {
                (a, b | v)
            }
        } else {
            (a, b)
        }
    }
}

/// The four pin rays of the side to move in `st`, its king on `king`: the rays from an enemy
/// slider through one friendly piece to the king, per direction.
pub open spec fn pin_rays(st: BoardState, king: Position) -> (u64, u64, u64, u64) {
    let ally = bbs_of(st, st.side);
    let enemy = bbs_of(st, other(st.side));
    let diag = enemy[BISHOP as int] | enemy[QUEEN as int];
    let par = enemy[ROOK as int] | enemy[QUEEN as int];
    let f = union6(ally);
    let e = union6(enemy);
    let first_pass = rook_attack(king, f | e).bitboard | bishop_attack(king, f | e).bitboard;
    let tg = (f & !first_pass) | e;
    let bc = bishop_attack(king, tg);
    let (c1, c2) = pin_fold(bc.takes + bc.ends, diag, false, king, bc.bitboard);
    let rc = rook_attack(king, tg);
    let (xc, yc) = pin_fold(rc.takes + rc.ends, par, true, king, rc.bitboard);
    (bc.bitboard & c1, bc.bitboard & c2, rc.bitboard & xc, rc.bitboard & yc)
}

/// The square of the pawn that an en passant capture in `st` would take.
pub open spec fn ep_pawn_square(st: BoardState) -> Option<Position> {
    match st.en_passant_square {
        Some(i) => Some(Position::at(i.col(), if other(st.side) == Side::White { 3 } else { 4 })),
        None => None,
    }
}

/// Whether en passant in `st`, the king on `king`, is free of pins: false with no en passant
/// square, else as `ep_free` says of the pawn that the capture takes.
pub open spec fn ep_allowed(st: BoardState, king: Position) -> bool {
    let ally = bbs_of(st, st.side);
    let enemy = bbs_of(st, other(st.side));
    let diag = enemy[BISHOP as int] | enemy[QUEEN as int];
    let par = enemy[ROOK as int] | enemy[QUEEN as int];
    let fe = union6(ally) | union6(enemy);
    match ep_pawn_square(st) {
        None => false,
        Some(ep) => ep_free(ep, king, fe, ally[PAWN as int], diag, par),
    }
}

/// The pins on the side to move in `st`, its king on `king`.
pub open spec fn pins_of(st: BoardState, king: Position) -> PinState {
    let (d1, d2, x, y) = pin_rays(st, king);
    PinState { diagonal_1: d1, diagonal_2: d2, x_aligned: x, y_aligned: y, can_en_passant: ep_allowed(st, king) }
}

fn fold_pins(ps: &Vec<Position>, attackers: u64, rook: bool, king_pos: Position, cast: u64, tables: &MoveTables) -> (r: (u64, u64))
    requires
        tables.wf(),
        king_pos.valid(),
        forall|j: int| 0 <= j < ps@.len() ==> (#[trigger] ps@[j]).valid(),
    ensures
        r == pin_fold(ps@, attackers, rook, king_pos, cast),
{
    let king_mask = king_pos.as_mask();
    let mut casts_1: u64 = 0;
    let mut casts_2: u64 = 0;
    let mut i: usize = 0;
    assert(ps@.take(0) =~= Seq::<Position>::empty());
    while i < ps.len()
        invariant
            i <= ps@.len(),
            tables.wf(),
            king_pos.valid(),
            king_mask == king_pos.mask(),
            forall|j: int| 0 <= j < ps@.len() ==> (#[trigger] ps@[j]).valid(),
            (casts_1, casts_2) == pin_fold(ps@.take(i as int), attackers, rook, king_pos, cast),
        decreases ps@.len() - i,
    {
        let p = ps[i];
        assert(ps@.take(i + 1).drop_last() =~= ps@.take(i as int));
        if attackers & p.as_mask() != 0 {
            let reach = if rook {
                tables.magic.get_rook(p, king_mask).bitboard
            } else {
                tables.magic.get_bishop(p, king_mask).bitboard
            };
            let v = (reach & cast) | p.as_mask();
            let first = if rook {
                p.x() == king_pos.x()
            } else {
                (p.x() < king_pos.x() && p.y() < king_pos.y()) || (p.x() > king_pos.x() && p.y() > king_pos.y())
            };
            if first {
                casts_1 = casts_1 | v;
            } else {
                casts_2 = casts_2 | v;
            }
        }
        i += 1;
    }
    assert(ps@.take(ps@.len() as int) =~= ps@);
    (casts_1, casts_2)
}

fn contains_pos(ps: &Vec<Position>, p: Position) -> (r: bool)
    ensures
        r == ps@.contains(p),
{
    let mut i: usize = 0;
    while i < ps.len()
        invariant
            i <= ps@.len(),
            forall|j: int| 0 <= j < i ==> ps@[j] != p,
        decreases ps@.len() - i,
    {
        if ps[i] == p {
            return true;
        }
        i += 1;
    }
    false
}

/// Whether a diagonal attacker among `ps` stands beyond `ep` from the king on `king_pos`.
fn diagonal_behind(ps: &Vec<Position>, diag: u64, ep: Position, king_pos: Position) -> (r: bool)
    requires
        forall|j: int| 0 <= j < ps@.len() ==> (#[trigger] ps@[j]).valid(),
    ensures
        r == exists|j: int| 0 <= j < ps@.len() && diag & (#[trigger] ps@[j]).mask() != 0 && ((ps@[j].col() < ep.col() && ep.col() < king_pos.col())
            || (ps@[j].col() > ep.col() && ep.col() > king_pos.col())),
{
    let mut i: usize = 0;
    while i < ps.len()
        invariant
            i <= ps@.len(),
            forall|j: int| 0 <= j < ps@.len() ==> (#[trigger] ps@[j]).valid(),
            forall|j: int| 0 <= j < i ==> !(diag & (#[trigger] ps@[j]).mask() != 0 && ((ps@[j].col() < ep.col() && ep.col() < king_pos.col())
                || (ps@[j].col() > ep.col() && ep.col() > king_pos.col()))),
        decreases ps@.len() - i,
    {
        let q = ps[i];
        if q.as_mask() & diag != 0 && ((q.x() < ep.x() && ep.x() < king_pos.x()) || (q.x() > ep.x() && ep.x() > king_pos.x())) {
            proof {
                crate::bits::lemma_and_comm(q.mask(), diag);
            }
            return true;
        }
        proof {
            crate::bits::lemma_and_comm(q.mask(), diag);
        }
        i += 1;
    }
    false
}

/// Whether a straight attacker among `ps` stands on the rank of `ep`.
fn straight_on_rank(ps: &Vec<Position>, par: u64, ep: Position) -> (r: bool)
    requires
        forall|j: int| 0 <= j < ps@.len() ==> (#[trigger] ps@[j]).valid(),
    ensures
        r == exists|j: int| 0 <= j < ps@.len() && par & (#[trigger] ps@[j]).mask() != 0 && ps@[j].row() == ep.row(),
{
    let mut i: usize = 0;
    while i < ps.len()
        invariant
            i <= ps@.len(),
            forall|j: int| 0 <= j < ps@.len() ==> (#[trigger] ps@[j]).valid(),
            forall|j: int| 0 <= j < i ==> !(par & (#[trigger] ps@[j]).mask() != 0 && ps@[j].row() == ep.row()),
        decreases ps@.len() - i,
    {
        let q = ps[i];
        if q.as_mask() & par != 0 && q.y() == ep.y() {
            proof {
                crate::bits::lemma_and_comm(q.mask(), par);
            }
            return true;
        }
        proof {
            crate::bits::lemma_and_comm(q.mask(), par);
        }
        i += 1;
    }
    false
}

/// Whether the pawn on `ep` stands on a diagonal between the king on `king_pos` and a
/// diagonal attacker, with `all` the occupied squares.
pub open spec fn ep_diag_pinned(ep: Position, king_pos: Position, all: u64, diagonal_attackers: u64) -> bool {
    let bec = bishop_attack(king_pos, all);
    let epc = bishop_attack(ep, all).takes + bishop_attack(ep, all).ends;
    (bec.takes + bec.ends).contains(ep) && exists|j: int|
        0 <= j < epc.len() && diagonal_attackers & (#[trigger] epc[j]).mask() != 0 && ((epc[j].col() < ep.col() && ep.col() < king_pos.col())
            || (epc[j].col() > ep.col() && ep.col() > king_pos.col()))
}

/// Whether a pawn among `ally_pawns` stands `dx` files beside `ep`.
pub open spec fn ep_side_pawn(ep: Position, dx: i8, ally_pawns: u64) -> bool {
    ep.offset_target(Offset { x: dx, y: 0i8 }) matches Some(l) && ally_pawns & l.mask() != 0
}

/// The occupied squares `all` without the side's pawns beside `ep`.
pub open spec fn ep_rank_targets(ep: Position, all: u64, ally_pawns: u64) -> u64 {
    let t1 = if ep_side_pawn(ep, -1i8, ally_pawns) { all & !ep.offset_target(Offset { x: -1i8, y: 0i8 })->0.mask() } else { all };
    if ep_side_pawn(ep, 1i8, ally_pawns) { t1 & !ep.offset_target(Offset { x: 1i8, y: 0i8 })->0.mask() } else { t1 }
}

/// Whether, with `targets` occupied, the pawn on `ep` is the one piece between the king on
/// `king_pos` and a rook or queen on its rank.
pub open spec fn ep_rank_exposed(ep: Position, king_pos: Position, targets: u64, parallel_attackers: u64) -> bool {
    let rkc = rook_attack(king_pos, targets);
    let h = rook_attack(ep, targets).takes + rook_attack(ep, targets).ends;
    (rkc.takes + rkc.ends).contains(ep) && exists|j: int|
        0 <= j < h.len() && parallel_attackers & (#[trigger] h[j]).mask() != 0 && h[j].row() == ep.row()
}

/// Whether en passant taking the pawn on `ep` is free of pins, with `all` the occupied squares:
/// not when the pawn is pinned on a diagonal; always when two pawns of the side stand beside
/// it; else when taking it and the side's pawn beside it opens no rank to the king.
pub open spec fn ep_free(
    ep: Position,
    king_pos: Position,
    all: u64,
    ally_pawns: u64,
    diagonal_attackers: u64,
    parallel_attackers: u64,
) -> bool {
    if ep_diag_pinned(ep, king_pos, all, diagonal_attackers) {
        false
    } else if ep_side_pawn(ep, -1i8, ally_pawns) && ep_side_pawn(ep, 1i8, ally_pawns) {
        true
    } else {
        !ep_rank_exposed(ep, king_pos, ep_rank_targets(ep, all, ally_pawns), parallel_attackers)
    }
}

impl PinState {
    /// The pins on the side to move in `state`, its king on `king_pos`.
    pub fn find(state: &BoardState, king_pos: Position, tables: &MoveTables) -> (r: Self)
        requires
            tables.wf(),
            king_pos.valid(),
            state.en_passant_square matches Some(e) ==> e.valid(),
        ensures
            r == pins_of(*state, king_pos),
    {
        let ally_bitboards = state.side_bitboards(state.side);
        let enemy_bitboards = state.side_bitboards(state.side.opposite());
        let diagonal_attackers = enemy_bitboards.state[BISHOP] | enemy_bitboards.state[QUEEN];
        let parallel_attackers = enemy_bitboards.state[ROOK] | enemy_bitboards.state[QUEEN];
        let friendlies = ally_bitboards.combined();
        let enemies = enemy_bitboards.combined();
        let ally_pawns = ally_bitboards.state[PAWN];

        let first_pass = tables.magic.get_rook(king_pos, friendlies | enemies).bitboard
            | tables.magic.get_bishop(king_pos, friendlies | enemies).bitboard;
        let targets = (friendlies & !first_pass) | enemies;

        let bcast = tables.magic.get_bishop(king_pos, targets);
        let bps = bcast.possible_takes();
        proof {
            crate::magic_bitboards::lemma_attack_valid(false, king_pos, targets);
        }
        let (casts_1, casts_2) = fold_pins(&bps, diagonal_attackers, false, king_pos, bcast.bitboard, tables);
        let diagonal_1 = bcast.bitboard & casts_1;
        let diagonal_2 = bcast.bitboard & casts_2;

        let rcast = tables.magic.get_rook(king_pos, targets);
        let rps = rcast.possible_takes();
        proof {
            crate::magic_bitboards::lemma_attack_valid(true, king_pos, targets);
        }
        let (x_casts, y_casts) = fold_pins(&rps, parallel_attackers, true, king_pos, rcast.bitboard, tables);
        let x_aligned = rcast.bitboard & x_casts;
        let y_aligned = rcast.bitboard & y_casts;

        let can_en_passant = match state.en_passant_square {
            None => false,
            Some(i) => {
                let ep = i.with_y(match state.side.opposite() {
                    Side::White => 3,
                    Side::Black => 4,
                }).unwrap();
                Self::ep_check(ep, king_pos, friendlies | enemies, ally_pawns, diagonal_attackers, parallel_attackers, tables)
            },
        };
        proof {
            let (d1, d2, xx, yy) = pin_rays(*state, king_pos);
            assert(d1 == diagonal_1);
            assert(d2 == diagonal_2);
            assert(xx == x_aligned);
            assert(yy == y_aligned);
            assert(can_en_passant == ep_allowed(*state, king_pos));
        }
        PinState { diagonal_1, diagonal_2, x_aligned, y_aligned, can_en_passant }
    }

    /// Whether the pawn on `ep` is pinned to the king on a diagonal.
    fn ep_diag_check(ep: Position, king_pos: Position, all: u64, diagonal_attackers: u64, tables: &MoveTables) -> (r: bool)
        requires
            tables.wf(),
            king_pos.valid(),
            ep.valid(),
        ensures
            r == ep_diag_pinned(ep, king_pos, all, diagonal_attackers),
    {
        let bishop_ep_cast = tables.magic.get_bishop(king_pos, all);
        if contains_pos(&bishop_ep_cast.possible_takes(), ep) {
            let ep_cast = tables.magic.get_bishop(ep, all);
            proof {
                crate::magic_bitboards::lemma_attack_valid(false, ep, all);
            }
            let pt = ep_cast.possible_takes();
            let r = diagonal_behind(&pt, diagonal_attackers, ep, king_pos);
            proof {
                let epc = bishop_attack(ep, all).takes + bishop_attack(ep, all).ends;
                assert(pt@ == epc);
            }
            r
        } else {
            false
        }
    }

    /// Whether the pawn on `ep` is the one piece between the king and a straight attacker on
    /// its rank, with `targets` occupied.
    fn ep_rank_check(ep: Position, king_pos: Position, targets: u64, parallel_attackers: u64, tables: &MoveTables) -> (r: bool)
        requires
            tables.wf(),
            king_pos.valid(),
            ep.valid(),
        ensures
            r == ep_rank_exposed(ep, king_pos, targets, parallel_attackers),
    {
        let rook_ep_cast = tables.magic.get_rook(king_pos, targets);
        if !contains_pos(&rook_ep_cast.possible_takes(), ep) {
            return false;
        }
        let hits_on_ep = tables.magic.get_rook(ep, targets);
        proof {
            crate::magic_bitboards::lemma_attack_valid(true, ep, targets);
        }
        let pt = hits_on_ep.possible_takes();
        let r = straight_on_rank(&pt, parallel_attackers, ep);
        proof {
            let h = rook_attack(ep, targets).takes + rook_attack(ep, targets).ends;
            assert(pt@ == h);
        }
        r
    }

    /// Whether en passant taking the pawn on `ep` is free of pins.
    fn ep_check(
        ep: Position,
        king_pos: Position,
        all: u64,
        ally_pawns: u64,
        diagonal_attackers: u64,
        parallel_attackers: u64,
        tables: &MoveTables,
    ) -> (r: bool)
        requires
            tables.wf(),
            king_pos.valid(),
            ep.valid(),
        ensures
            r == ep_free(ep, king_pos, all, ally_pawns, diagonal_attackers, parallel_attackers),
    {
        if Self::ep_diag_check(ep, king_pos, all, diagonal_attackers, tables) {
            return false;
        }
        let left_ep = ep.with_offset(Offset::new(-1, 0));
        let mut ep_targets = all;
        let mut decimated_pawn = false;
        if let Some(left) = left_ep {
            if ally_pawns & left.as_mask() != 0 {
                decimated_pawn = true;
                ep_targets = ep_targets & !left.as_mask();
            }
        }
        assert(decimated_pawn == ep_side_pawn(ep, -1i8, ally_pawns));
        let right_ep = ep.with_offset(Offset::new(1, 0));
        let mut right_pawn = false;
        if let Some(right) = right_ep {
            if ally_pawns & right.as_mask() != 0 {
                if decimated_pawn {
                    return true;
                }
                right_pawn = true;
                ep_targets = ep_targets & !right.as_mask();
            }
        }
        assert(right_pawn == ep_side_pawn(ep, 1i8, ally_pawns));
        assert(ep_targets == ep_rank_targets(ep, all, ally_pawns));
        !Self::ep_rank_check(ep, king_pos, ep_targets, parallel_attackers, tables)
    }
}

} // verus!
