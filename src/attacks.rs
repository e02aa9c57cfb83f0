//! What "attacked" means, and why looking up attackers from the attacked
//! square finds exactly the pieces that attack it.
use vstd::prelude::*;
use crate::bitboard::{
    lemma_squares_and, lemma_squares_empty, lemma_squares_or, lemma_squares_single, lowest, single,
    squares, word_of,
};
use crate::geometry::{
    bishop_dirs, file_of, is_step, king_steps, knight_steps, pawn_capture_steps,
    rank_of, rook_dirs, step_set,
};
use crate::chess_data::ChessTables;
use crate::magics::{attack_word, blocked_at, slide_ray, slide_set};
use crate::move_generation::{
    attackers_to, bishop_attacks, capture_table, in_check, rook_attacks, table_word,
};
use crate::structs::{color_index, Board};

verus! {

/// The word holding the squares of `s` below `n`.
spec fn word_below(s: Set<int>, n: int) -> u64
    decreases n,
{
    if n <= 0 {
        0
    } else if s.contains(n - 1) {
        word_below(s, n - 1) | single(n - 1)
    } else {
        word_below(s, n - 1)
    }
}

proof fn lemma_word_below(s: Set<int>, n: int)
    requires
        0 <= n <= 64,
    ensures
        squares(word_below(s, n)) == s.filter(|i: int| 0 <= i < n),
    decreases n,
{
    if n == 0 {
        crate::bitboard::lemma_squares_empty(0);
        assert(s.filter(|i: int| 0 <= i < n) =~= Set::<int>::empty());
    } else {
        lemma_word_below(s, n - 1);
        if s.contains(n - 1) {
            lemma_squares_or(word_below(s, n - 1), single(n - 1));
            lemma_squares_single(n - 1);
        }
        assert(squares(word_below(s, n)) =~= s.filter(|i: int| 0 <= i < n));
    }
}

/// Every set of squares on the board is the set of some word.
pub proof fn lemma_word_exists(s: Set<int>)
    requires
        forall|i: int| #[trigger] s.contains(i) ==> 0 <= i < 64,
    ensures
        squares(word_of(s)) == s,
{
    lemma_word_below(s, 64);
    assert(s.filter(|i: int| 0 <= i < 64) =~= s);
    let w = word_below(s, 64);
    assert(squares(w) == s);
    let v = word_of(s);
    assert(squares(v) == s);
}

/// Square `q` is the square `(dx, dy)` away from `s` exactly when `s` is the
/// square `(-dx, -dy)` away from `q`.
pub proof fn lemma_step_reverse(s: int, dx: int, dy: int, q: int)
    requires
        0 <= s < 64,
    ensures
        is_step(s, dx, dy, q) <==> (0 <= q < 64 && is_step(q, -dx, -dy, s)),
{
    if is_step(s, dx, dy, q) {
        let x = file_of(s) + dx;
        let y = rank_of(s) + dy;
        assert(q == y * 8 + x);
        assert(file_of(q) == x && rank_of(q) == y);
    }
    if 0 <= q < 64 && is_step(q, -dx, -dy, s) {
        assert(file_of(s) == file_of(q) - dx && rank_of(s) == rank_of(q) - dy);
    }
}

/// Step `j` of `steps` reverses step `i`.
pub open spec fn reverses(steps: Seq<(i32, i32)>, i: int, j: int) -> bool {
    0 <= j < steps.len() && steps[j].0 == -steps[i].0 && steps[j].1 == -steps[i].1
}

/// Step `i` of `steps` has its reverse in `steps`.
pub open spec fn has_reverse(steps: Seq<(i32, i32)>, i: int) -> bool {
    exists|j: int| #[trigger] reverses(steps, i, j)
}

/// Every step of `steps` has its reverse in `steps`.
pub open spec fn closed_under_reversal(steps: Seq<(i32, i32)>) -> bool {
    forall|i: int| 0 <= i < steps.len() ==> #[trigger] has_reverse(steps, i)
}

proof fn lemma_king_closed()
    ensures
        closed_under_reversal(king_steps()),
{
    let k = king_steps();
    assert forall|i: int| 0 <= i < k.len() implies #[trigger] has_reverse(k, i) by {
        assert(reverses(k, i, 7 - i));
    }
}

proof fn lemma_knight_closed()
    ensures
        closed_under_reversal(knight_steps()),
{
    let n = knight_steps();
    assert forall|i: int| 0 <= i < n.len() implies #[trigger] has_reverse(n, i) by {
        if i < 4 {
            assert(reverses(n, i, i + 4));
        } else {
            assert(reverses(n, i, i - 4));
        }
    }
}

/// For steps closed under reversal, `q` is a step from `s` exactly when `s`
/// is a step from `q`.
pub proof fn lemma_step_set_symmetric(s: int, q: int, steps: Seq<(i32, i32)>)
    requires
        0 <= s < 64,
        closed_under_reversal(steps),
    ensures
        step_set(s, steps).contains(q) <==> (0 <= q < 64 && step_set(q, steps).contains(s)),
{
    if step_set(s, steps).contains(q) {
        let i = choose|i: int| 0 <= i < steps.len() && #[trigger] is_step(s, steps[i].0 as int, steps[i].1 as int, q);
        lemma_step_reverse(s, steps[i].0 as int, steps[i].1 as int, q);
        assert(has_reverse(steps, i));
        let j = choose|j: int| #[trigger] reverses(steps, i, j);
        assert(is_step(q, steps[j].0 as int, steps[j].1 as int, s));
    }
    if 0 <= q < 64 && step_set(q, steps).contains(s) {
        let i = choose|i: int| 0 <= i < steps.len() && #[trigger] is_step(q, steps[i].0 as int, steps[i].1 as int, s);
        lemma_step_reverse(q, steps[i].0 as int, steps[i].1 as int, s);
        assert(has_reverse(steps, i));
        let j = choose|j: int| #[trigger] reverses(steps, i, j);
        assert(is_step(s, steps[j].0 as int, steps[j].1 as int, q));
    }
}

/// A pawn capture of colour index `c` from `s` reaches `q` exactly when a
/// pawn capture of the other colour from `q` reaches `s`.
pub proof fn lemma_pawn_capture_symmetric(s: int, q: int, c: int)
    requires
        0 <= s < 64,
        0 <= c < 2,
    ensures
        step_set(s, pawn_capture_steps(c)).contains(q) <==> (0 <= q < 64 && step_set(
            q,
            pawn_capture_steps(1 - c),
        ).contains(s)),
{
    let a = pawn_capture_steps(c);
    let r = pawn_capture_steps(1 - c);
    if step_set(s, a).contains(q) {
        let i = choose|i: int| 0 <= i < a.len() && #[trigger] is_step(s, a[i].0 as int, a[i].1 as int, q);
        lemma_step_reverse(s, a[i].0 as int, a[i].1 as int, q);
        assert(is_step(q, r[1 - i].0 as int, r[1 - i].1 as int, s));
    }
    if 0 <= q < 64 && step_set(q, r).contains(s) {
        let i = choose|i: int| 0 <= i < r.len() && #[trigger] is_step(q, r[i].0 as int, r[i].1 as int, s);
        lemma_step_reverse(q, r[i].0 as int, r[i].1 as int, s);
        assert(is_step(s, a[1 - i].0 as int, a[1 - i].1 as int, q));
    }
}

proof fn lemma_slide_ray_reverse_one(s: int, dx: int, dy: int, occ: Set<int>, q: int)
    requires
        0 <= s < 64,
        crate::chess_data::unit_dir(dx, dy),
        slide_ray(s, dx, dy, occ).contains(q),
    ensures
        0 <= q < 64,
        slide_ray(q, -dx, -dy, occ).contains(s),
{
    let k = choose|k: int|
        1 <= k < 8 && #[trigger] is_step(s, k * dx, k * dy, q) && forall|j: int|
            1 <= j < k ==> !#[trigger] blocked_at(s, dx, dy, j, occ);
    lemma_step_reverse(s, k * dx, k * dy, q);
    assert(k * (-dx) == -(k * dx) && k * (-dy) == -(k * dy)) by (nonlinear_arith);
    assert(is_step(q, k * (-dx), k * (-dy), s));
    let fq = file_of(q);
    let rq = rank_of(q);
    assert(fq == file_of(s) + k * dx && rq == rank_of(s) + k * dy);
    assert forall|j: int| 1 <= j < k implies !#[trigger] blocked_at(q, -dx, -dy, j, occ) by {
        assert(fq + j * (-dx) == file_of(s) + (k - j) * dx && rq + j * (-dy) == rank_of(s) + (k - j)
            * dy) by (nonlinear_arith)
            requires
                fq == file_of(s) + k * dx,
                rq == rank_of(s) + k * dy,
        ;
        assert(!blocked_at(s, dx, dy, k - j, occ));
    }
}

/// A slider on `s` moving along `(dx, dy)` reaches `q` exactly when one on `q`
/// moving the opposite way reaches `s`.
pub proof fn lemma_slide_ray_reverse(s: int, dx: int, dy: int, occ: Set<int>, q: int)
    requires
        0 <= s < 64,
        crate::chess_data::unit_dir(dx, dy),
    ensures
        slide_ray(s, dx, dy, occ).contains(q) <==> (0 <= q < 64 && slide_ray(q, -dx, -dy, occ).contains(s)),
{
    if slide_ray(s, dx, dy, occ).contains(q) {
        lemma_slide_ray_reverse_one(s, dx, dy, occ, q);
    }
    if 0 <= q < 64 && slide_ray(q, -dx, -dy, occ).contains(s) {
        lemma_slide_ray_reverse_one(q, -dx, -dy, occ, s);
        assert(-(-dx) == dx && -(-dy) == dy);
    }
}

/// For directions closed under reversal, sliding from `s` reaches `q`
/// exactly when sliding from `q` reaches `s`.
pub proof fn lemma_slide_set_symmetric(s: int, q: int, dirs: Seq<(i32, i32)>, occ: Set<int>)
    requires
        0 <= s < 64,
        crate::chess_data::unit_dirs(dirs),
        closed_under_reversal(dirs),
    ensures
        slide_set(s, dirs, occ).contains(q) <==> (0 <= q < 64 && slide_set(q, dirs, occ).contains(s)),
{
    if slide_set(s, dirs, occ).contains(q) {
        let i = choose|i: int| 0 <= i < dirs.len() && #[trigger] slide_ray(s, dirs[i].0 as int, dirs[i].1 as int, occ).contains(q);
        assert(crate::chess_data::unit_dir(dirs[i].0 as int, dirs[i].1 as int));
        lemma_slide_ray_reverse(s, dirs[i].0 as int, dirs[i].1 as int, occ, q);
        assert(has_reverse(dirs, i));
        let j = choose|j: int| #[trigger] reverses(dirs, i, j);
        assert(slide_ray(q, dirs[j].0 as int, dirs[j].1 as int, occ).contains(s));
    }
    if 0 <= q < 64 && slide_set(q, dirs, occ).contains(s) {
        let i = choose|i: int| 0 <= i < dirs.len() && #[trigger] slide_ray(q, dirs[i].0 as int, dirs[i].1 as int, occ).contains(s);
        assert(crate::chess_data::unit_dir(dirs[i].0 as int, dirs[i].1 as int));
        lemma_slide_ray_reverse(q, dirs[i].0 as int, dirs[i].1 as int, occ, s);
        assert(has_reverse(dirs, i));
        let j = choose|j: int| #[trigger] reverses(dirs, i, j);
        assert(slide_ray(s, dirs[j].0 as int, dirs[j].1 as int, occ).contains(q));
    }
}

proof fn lemma_slider_dirs_closed()
    ensures
        closed_under_reversal(rook_dirs()),
        closed_under_reversal(bishop_dirs()),
        crate::chess_data::unit_dirs(rook_dirs()),
        crate::chess_data::unit_dirs(bishop_dirs()),
{
    let r = rook_dirs();
    let b = bishop_dirs();
    assert forall|i: int| 0 <= i < r.len() implies #[trigger] has_reverse(r, i) by {
        assert(reverses(r, i, 3 - i));
    }
    assert forall|i: int| 0 <= i < b.len() implies #[trigger] has_reverse(b, i) by {
        assert(reverses(b, i, 3 - i));
    }
}

/// The occupied squares of `b`.
pub open spec fn occupied_set(b: Board) -> Set<int> {
    squares(b.occupancy_word(0) | b.occupancy_word(1))
}

/// The squares attacked by a piece of colour index `e` and kind index `k`
/// on `q`, when the squares of `occ` are occupied.
pub open spec fn attack_set(q: int, e: int, k: int, occ: Set<int>) -> Set<int> {
    if k == 0 {
        step_set(q, king_steps())
    } else if k == 1 {
        slide_set(q, rook_dirs(), occ).union(slide_set(q, bishop_dirs(), occ))
    } else if k == 2 {
        slide_set(q, rook_dirs(), occ)
    } else if k == 3 {
        slide_set(q, bishop_dirs(), occ)
    } else if k == 4 {
        step_set(q, knight_steps())
    } else {
        step_set(q, pawn_capture_steps(e))
    }
}

/// The pieces of colour index `e` that attack square `s`.
pub open spec fn attackers_of(b: Board, e: int, s: int) -> Set<int> {
    Set::new(
        |q: int|
            exists|k: int|
                0 <= k < 6 && #[trigger] b.pieces(e, k).contains(q) && attack_set(
                    q,
                    e,
                    k,
                    occupied_set(b),
                ).contains(s),
    )
}

/// Some piece of colour index `e` attacks square `s`.
pub open spec fn attacked_by(b: Board, e: int, s: int) -> bool {
    exists|q: int| #[trigger] attackers_of(b, e, s).contains(q)
}

proof fn lemma_attack_word_squares(s: int, dirs: Seq<(i32, i32)>, occ: u64)
    requires
        0 <= s < 64,
    ensures
        squares(attack_word(s, dirs, occ)) == slide_set(s, dirs, squares(occ)),
{
    let set = slide_set(s, dirs, squares(occ));
    assert forall|q: int| #[trigger] set.contains(q) implies 0 <= q < 64 by {
        let i = choose|i: int| 0 <= i < dirs.len() && #[trigger] slide_ray(s, dirs[i].0 as int, dirs[i].1 as int, squares(occ)).contains(q);
        let dx = dirs[i].0 as int;
        let dy = dirs[i].1 as int;
        let k = choose|k: int|
            1 <= k < 8 && #[trigger] is_step(s, k * dx, k * dy, q) && forall|j: int|
                1 <= j < k ==> !#[trigger] blocked_at(s, dx, dy, j, squares(occ));
    }
    lemma_word_exists(set);
}

/// Looking up attackers from square `s`, for a king of colour index `c`
/// there, finds exactly the enemy pieces that attack `s`.
pub proof fn lemma_attackers_to_exact(b: Board, t: ChessTables, s: int, c: int)
    requires
        t.wf(),
        0 <= s < 64,
        0 <= c < 2,
    ensures
        squares(attackers_to(b, t, s, c)) == attackers_of(b, 1 - c, s),
        (attackers_to(b, t, s, c) != 0) == attacked_by(b, 1 - c, s),
{
    let e = 1 - c;
    let occ = b.occupancy_word(0) | b.occupancy_word(1);
    let o = squares(occ);
    let rook = rook_attacks(t, s, occ);
    let bishop = bishop_attacks(t, s, occ);
    crate::laws::lemma_magic_lookups_exact(t, s, occ);
    lemma_attack_word_squares(s, rook_dirs(), occ);
    lemma_attack_word_squares(s, bishop_dirs(), occ);
    lemma_king_closed();
    lemma_knight_closed();
    lemma_slider_dirs_closed();
    let kn = table_word(t, 4, s) & b.word(e, 4);
    let kg = table_word(t, 0, s) & b.word(e, 0);
    let pw = table_word(t, capture_table(c), s) & b.word(e, 5);
    let bs = bishop & b.word(e, 3);
    let qn = (rook | bishop) & b.word(e, 1);
    let rk = rook & b.word(e, 2);
    lemma_squares_and(table_word(t, 4, s), b.word(e, 4));
    lemma_squares_and(table_word(t, 0, s), b.word(e, 0));
    lemma_squares_and(table_word(t, capture_table(c), s), b.word(e, 5));
    lemma_squares_and(bishop, b.word(e, 3));
    lemma_squares_or(rook, bishop);
    lemma_squares_and(rook | bishop, b.word(e, 1));
    lemma_squares_and(rook, b.word(e, 2));
    lemma_squares_or(kn, kg);
    lemma_squares_or(kn | kg, pw);
    lemma_squares_or(kn | kg | pw, bs);
    lemma_squares_or(kn | kg | pw | bs, qn);
    lemma_squares_or(kn | kg | pw | bs | qn, rk);
    assert(t.lookup_tables[4][s]@ == step_set(s, knight_steps()));
    assert(t.lookup_tables[0][s]@ == step_set(s, king_steps()));
    if c == 0 {
        assert(t.lookup_tables[6][s]@ == step_set(s, pawn_capture_steps(0)));
    } else {
        assert(t.lookup_tables[8][s]@ == step_set(s, pawn_capture_steps(1)));
    }
    let att = attackers_of(b, e, s);
    assert forall|q: int| #[trigger] squares(attackers_to(b, t, s, c)).contains(q) == att.contains(q) by {
        lemma_step_set_symmetric(s, q, knight_steps());
        lemma_step_set_symmetric(s, q, king_steps());
        lemma_pawn_capture_symmetric(s, q, c);
        lemma_slide_set_symmetric(s, q, rook_dirs(), o);
        lemma_slide_set_symmetric(s, q, bishop_dirs(), o);
        if squares(attackers_to(b, t, s, c)).contains(q) {
            if squares(kn).contains(q) {
                assert(b.pieces(e, 4).contains(q) && attack_set(q, e, 4, o).contains(s));
            } else if squares(kg).contains(q) {
                assert(b.pieces(e, 0).contains(q) && attack_set(q, e, 0, o).contains(s));
            } else if squares(pw).contains(q) {
                assert(b.pieces(e, 5).contains(q) && attack_set(q, e, 5, o).contains(s));
            } else if squares(bs).contains(q) {
                assert(b.pieces(e, 3).contains(q) && attack_set(q, e, 3, o).contains(s));
            } else if squares(qn).contains(q) {
                assert(b.pieces(e, 1).contains(q) && attack_set(q, e, 1, o).contains(s));
            } else {
                assert(b.pieces(e, 2).contains(q) && attack_set(q, e, 2, o).contains(s));
            }
        }
        if att.contains(q) {
            let k = choose|k: int| 0 <= k < 6 && #[trigger] b.pieces(e, k).contains(q) && attack_set(q, e, k, o).contains(s);
            if k == 0 {
                assert(squares(kg).contains(q));
            } else if k == 1 {
                assert(squares(qn).contains(q));
            } else if k == 2 {
                assert(squares(rk).contains(q));
            } else if k == 3 {
                assert(squares(bs).contains(q));
            } else if k == 4 {
                assert(squares(kn).contains(q));
            } else {
                assert(squares(pw).contains(q));
            }
        }
    }
    assert(squares(attackers_to(b, t, s, c)) =~= att);
    lemma_squares_empty(attackers_to(b, t, s, c));
    if attackers_to(b, t, s, c) != 0 {
        crate::bitboard::lemma_lowest(attackers_to(b, t, s, c));
        assert(att.contains(lowest(attackers_to(b, t, s, c))));
    }
    if attacked_by(b, e, s) {
        let q = choose|q: int| #[trigger] att.contains(q);
        assert(squares(attackers_to(b, t, s, c)).contains(q));
    }
}

/// The side to move is in check exactly when an enemy piece attacks its
/// king's square, and that is when looking up attackers from the king's
/// square finds some.
pub proof fn lemma_in_check_exact(b: Board, t: ChessTables)
    requires
        t.wf(),
    ensures
        in_check(b, t) == (b.word(color_index(b.turn), 0) != 0 && attacked_by(
            b,
            1 - color_index(b.turn),
            lowest(b.word(color_index(b.turn), 0)),
        )),
{
    let c = color_index(b.turn);
    let king = b.word(c, 0);
    if king != 0 {
        crate::bitboard::lemma_lowest(king);
        lemma_attackers_to_exact(b, t, lowest(king), c);
    }
}

} // verus!
