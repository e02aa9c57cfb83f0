//! Properties that hold of every position and every move sequence.
use vstd::prelude::*;
use crate::bitboard::{
    lemma_lowest, lowest, lemma_squares_and, lemma_squares_empty, lemma_squares_not, lemma_squares_or,
    lemma_squares_single, order, single, squares, without_lowest,
};
use crate::chess_data::{unit_dir, ChessTables};
use crate::geometry::{
    any_ray_set, bishop_dirs, file_of, is_step, long_push_set, on_board, pawn_capture_steps,
    pawn_push_steps, rank_of, rays_set, rook_dirs, short_ray_set, step_set,
};
use crate::magics::{attack_word, blocked_at, slide_ray, slide_set};
use crate::move_generation::{
    bishop_attacks, capture_table, castle_moves, clear_all, clear_in, dests_from,
    en_passant_moves, is_legal_after, kind_index_at, legal_from, legal_moves, long_table,
    make_spec, moved_words, movement_mask, moves_from, piece_moves, pseudo_legal_moves, push_table,
    put_in, rook_attacks, table_word, tag_moves, Words, BLACK_KINGSIDE_BLOCKERS,
    BLACK_QUEENSIDE_BLOCKERS, WHITE_KINGSIDE_BLOCKERS, WHITE_QUEENSIDE_BLOCKERS,
};
use crate::structs::{
    color_index, destination_of, lemma_pack_unpack, opposite_of, origin_of, pack_spec,
    rights_within, type_of, Board, MoveType,
};

verus! {

proof fn lemma_legal_from_within(b: Board, t: ChessTables, acc: Seq<u16>, ms: Seq<u16>, m: u16)
    requires
        legal_from(b, t, acc, ms).contains(m),
    ensures
        acc.contains(m) || (ms.contains(m) && is_legal_after(b, t, m)),
    decreases ms.len(),
{
    if ms.len() > 0 {
        let step = if is_legal_after(b, t, ms[0]) {
            seq![ms[0]]
        } else {
            seq![]
        };
        lemma_legal_from_within(b, t, acc + step, ms.drop_first(), m);
        if (acc + step).contains(m) {
            let i = choose|i: int| 0 <= i < (acc + step).len() && (acc + step)[i] == m;
            if i >= acc.len() {
                assert(ms[0] == m);
                assert(ms.contains(m));
            } else {
                assert(acc[i] == m);
            }
        } else {
            let i = choose|i: int| 0 <= i < ms.drop_first().len() && ms.drop_first()[i] == m;
            assert(ms[i + 1] == m);
        }
    }
}

/// Every legal move is pseudo-legal, and leaves the mover's king safe.
pub proof fn lemma_legal_moves_are_pseudo_legal(b: Board, t: ChessTables, m: u16)
    requires
        legal_moves(b, t).contains(m),
    ensures
        pseudo_legal_moves(b, t).contains(m),
        is_legal_after(b, t, m),
{
    lemma_legal_from_within(b, t, seq![], pseudo_legal_moves(b, t), m);
}

/// The position reached by playing `ms` in order from `b`.
pub open spec fn play(b: Board, ms: Seq<u16>) -> Board
    decreases ms.len(),
{
    if ms.len() == 0 {
        b
    } else {
        play(make_spec(b, ms[0]), ms.drop_first())
    }
}

/// Castling rights never come back: along any sequence of moves, every right
/// held at the end was held at the start.
pub proof fn lemma_castling_rights_never_return(b: Board, ms: Seq<u16>)
    ensures
        rights_within(play(b, ms).castling_rights, b.castling_rights),
    decreases ms.len(),
{
    if ms.len() > 0 {
        lemma_castling_rights_never_return(make_spec(b, ms[0]), ms.drop_first());
    }
}

/// The squares of word `c`, `k` of `w`.
pub open spec fn wsq(w: Words, c: int, k: int) -> Set<int> {
    squares(w[c][k].0)
}

pub open spec fn words_disjoint(w: Words) -> bool {
    forall|c1: int, k1: int, c2: int, k2: int, s: int|
        0 <= c1 < 2 && 0 <= k1 < 6 && 0 <= c2 < 2 && 0 <= k2 < 6 && (c1 != c2 || k1 != k2)
            && #[trigger] wsq(w, c1, k1).contains(s) ==> !#[trigger] wsq(w, c2, k2).contains(s)
}

pub open spec fn words_occupied(w: Words, s: int) -> bool {
    exists|c: int, k: int| 0 <= c < 2 && 0 <= k < 6 && #[trigger] wsq(w, c, k).contains(s)
}

pub open spec fn words_occupied_by(w: Words, c: int, s: int) -> bool {
    exists|k: int| 0 <= k < 6 && #[trigger] wsq(w, c, k).contains(s)
}

proof fn lemma_put_in(w: Words, c: int, k: int, s: int)
    requires
        0 <= c < 2,
        0 <= k < 6,
        0 <= s < 64,
    ensures
        forall|c2: int, k2: int|
            0 <= c2 < 2 && 0 <= k2 < 6 ==> #[trigger] wsq(put_in(w, c, k, s), c2, k2) == if c2 == c
                && k2 == k {
                wsq(w, c2, k2).insert(s)
            } else {
                wsq(w, c2, k2)
            },
{
    lemma_squares_or(w[c][k].0, single(s));
    lemma_squares_single(s);
    assert(squares(w[c][k].0).union(set![s]) =~= squares(w[c][k].0).insert(s));
}

proof fn lemma_clear_in(w: Words, c: int, k: int, s: int)
    requires
        0 <= c < 2,
        0 <= k < 6,
        0 <= s < 64,
    ensures
        forall|c2: int, k2: int|
            0 <= c2 < 2 && 0 <= k2 < 6 ==> #[trigger] wsq(clear_in(w, c, k, s), c2, k2) == if c2
                == c && k2 == k {
                wsq(w, c2, k2).remove(s)
            } else {
                wsq(w, c2, k2)
            },
{
    lemma_squares_and(w[c][k].0, !single(s));
    lemma_squares_not(single(s));
    lemma_squares_single(s);
    assert(squares(w[c][k].0).intersect(Set::new(|i: int| 0 <= i < 64).difference(set![s]))
        =~= squares(w[c][k].0).remove(s));
}

proof fn lemma_clear_all(w: Words, c: int, s: int)
    requires
        0 <= c < 2,
        0 <= s < 64,
    ensures
        forall|c2: int, k2: int|
            0 <= c2 < 2 && 0 <= k2 < 6 ==> #[trigger] wsq(clear_all(w, c, s), c2, k2) == if c2 == c {
                wsq(w, c2, k2).remove(s)
            } else {
                wsq(w, c2, k2)
            },
{
    let w1 = clear_in(w, c, 0, s);
    let w2 = clear_in(w1, c, 1, s);
    let w3 = clear_in(w2, c, 2, s);
    let w4 = clear_in(w3, c, 3, s);
    let w5 = clear_in(w4, c, 4, s);
    lemma_clear_in(w, c, 0, s);
    lemma_clear_in(w1, c, 1, s);
    lemma_clear_in(w2, c, 2, s);
    lemma_clear_in(w3, c, 3, s);
    lemma_clear_in(w4, c, 4, s);
    lemma_clear_in(w5, c, 5, s);
    assert forall|c2: int, k2: int| 0 <= c2 < 2 && 0 <= k2 < 6 implies #[trigger] wsq(
        clear_all(w, c, s),
        c2,
        k2,
    ) == if c2 == c {
        wsq(w, c2, k2).remove(s)
    } else {
        wsq(w, c2, k2)
    } by {
        if c2 == c {
            assert(wsq(w, c2, k2).remove(s).remove(s) =~= wsq(w, c2, k2).remove(s));
        }
    }
}

/// What a move must satisfy for playing it to keep a position well formed.
pub open spec fn move_fits(b: Board, m: u16) -> bool {
    let c = color_index(b.turn);
    let o = origin_of(m);
    let d = destination_of(m);
    let w = b.bitboards;
    &&& kind_index_at(b, c, o) < 6
    &&& match type_of(m) {
        MoveType::QuietMove => !words_occupied(w, d),
        MoveType::DoublePawnPush => !words_occupied(w, d) && (c == 0 ==> 8 <= o < 16 && d == o + 16
            && !words_occupied(w, o + 8)) && (c == 1 ==> 48 <= o < 56 && d == o - 16
            && !words_occupied(w, o - 8)),
        MoveType::EnPassant => b.en_passant == Some(d as u8),
        MoveType::KingCastle => kind_index_at(b, c, o) == 0 && (d == 1 || d == 57)
            && !words_occupied(w, d) && !words_occupied(w, d + 1),
        MoveType::QueenCastle => kind_index_at(b, c, o) == 0 && (d == 5 || d == 61)
            && !words_occupied(w, d) && !words_occupied(w, d - 1),
        _ => !words_occupied_by(w, c, d),
    }
}

/// Exactly one of the twelve piece sets holds square `s`.
pub open spec fn exactly_one_on(b: Board, s: int) -> bool {
    exists|c: int, k: int|
        0 <= c < 2 && 0 <= k < 6 && #[trigger] b.pieces(c, k).contains(s) && forall|c2: int, k2: int|
            0 <= c2 < 2 && 0 <= k2 < 6 && (c2 != c || k2 != k) ==> !#[trigger] b.pieces(c2, k2).contains(s)
}

proof fn lemma_board_words(b: Board)
    ensures
        b.disjoint() == words_disjoint(b.bitboards),
        forall|s: int| #[trigger] b.occupied(s) == words_occupied(b.bitboards, s),
        forall|c: int, k: int| #[trigger] b.pieces(c, k) == wsq(b.bitboards, c, k),
{
    let w = b.bitboards;
    if b.disjoint() {
        assert forall|c1: int, k1: int, c2: int, k2: int, s: int|
            0 <= c1 < 2 && 0 <= k1 < 6 && 0 <= c2 < 2 && 0 <= k2 < 6 && (c1 != c2 || k1 != k2)
                && #[trigger] wsq(w, c1, k1).contains(s) implies !#[trigger] wsq(w, c2, k2).contains(s) by {
            assert(b.pieces(c1, k1).contains(s));
            assert(!b.pieces(c2, k2).contains(s));
        }
    }
    if words_disjoint(w) {
        assert forall|c1: int, k1: int, c2: int, k2: int, s: int|
            0 <= c1 < 2 && 0 <= k1 < 6 && 0 <= c2 < 2 && 0 <= k2 < 6 && (c1 != c2 || k1 != k2)
                && #[trigger] b.pieces(c1, k1).contains(s) implies !#[trigger] b.pieces(c2, k2).contains(s) by {
            assert(wsq(w, c1, k1).contains(s));
            assert(!wsq(w, c2, k2).contains(s));
        }
    }
    assert forall|s: int| #[trigger] b.occupied(s) == words_occupied(b.bitboards, s) by {
        if b.occupied(s) {
            if b.occupied_by(0, s) {
                let k = choose|k: int| 0 <= k < 6 && #[trigger] b.pieces(0, k).contains(s);
                assert(wsq(b.bitboards, 0, k).contains(s));
            } else {
                let k = choose|k: int| 0 <= k < 6 && #[trigger] b.pieces(1, k).contains(s);
                assert(wsq(b.bitboards, 1, k).contains(s));
            }
        }
        if words_occupied(b.bitboards, s) {
            let (c, k) = choose|c: int, k: int| 0 <= c < 2 && 0 <= k < 6 && #[trigger] wsq(b.bitboards, c, k).contains(s);
            assert(b.pieces(c, k).contains(s));
        }
    }
}

proof fn lemma_exactly_one(w: Words, c: int, k: int, d: int)
    requires
        words_disjoint(w),
        0 <= c < 2,
        0 <= k < 6,
        wsq(w, c, k).contains(d),
    ensures
        forall|c2: int, k2: int|
            0 <= c2 < 2 && 0 <= k2 < 6 && (c2 != c || k2 != k) ==> !#[trigger] wsq(w, c2, k2).contains(d),
{
}

/// The words after a move that fits are disjoint, and its destination is in
/// exactly one of them.
proof fn lemma_moved_words(b: Board, m: u16)
    requires
        b.wf(),
        move_fits(b, m),
    ensures
        words_disjoint(moved_words(b, origin_of(m), destination_of(m), type_of(m))),
        exists|c: int, k: int|
            0 <= c < 2 && 0 <= k < 6 && #[trigger] wsq(
                moved_words(b, origin_of(m), destination_of(m), type_of(m)),
                c,
                k,
            ).contains(destination_of(m)),
{
    lemma_board_words(b);
    let w = b.bitboards;
    let c = color_index(b.turn);
    let e = 1 - c;
    let o = origin_of(m);
    let d = destination_of(m);
    let k = kind_index_at(b, c, o);
    assert(0 <= o < 64 && 0 <= d < 64);
    let w0 = clear_in(w, c, k, o);
    lemma_clear_in(w, c, k, o);
    let r = moved_words(b, o, d, type_of(m));
    match type_of(m) {
        MoveType::QuietMove | MoveType::DoublePawnPush => {
            lemma_put_in(w0, c, k, d);
            assert(wsq(r, c, k).contains(d));
        },
        MoveType::KingCastle => {
            let w1 = put_in(w0, c, k, d);
            lemma_put_in(w0, c, k, d);
            let w2 = clear_in(w1, c, 2, d - 1);
            lemma_clear_in(w1, c, 2, d - 1);
            lemma_put_in(w2, c, 2, d + 1);
            assert(wsq(r, c, k).contains(d));
        },
        MoveType::QueenCastle => {
            let w1 = put_in(w0, c, k, d);
            lemma_put_in(w0, c, k, d);
            let w2 = clear_in(w1, c, 2, d + 2);
            lemma_clear_in(w1, c, 2, d + 2);
            lemma_put_in(w2, c, 2, d - 1);
            assert(wsq(r, c, k).contains(d));
        },
        MoveType::Capture => {
            let w1 = clear_all(w0, e, d);
            lemma_clear_all(w0, e, d);
            lemma_put_in(w1, c, k, d);
            assert(wsq(r, c, k).contains(d));
        },
        MoveType::EnPassant => {
            let behind = if c == 0 { d - 8 } else { d + 8 };
            let w1 = if 0 <= behind < 64 { clear_all(w0, e, behind) } else { w0 };
            if 0 <= behind < 64 {
                lemma_clear_all(w0, e, behind);
            }
            lemma_put_in(w1, c, k, d);
            assert(!words_occupied(w, d));
            assert(wsq(r, c, k).contains(d));
        },
        MoveType::QueenPromotion => {
            let w1 = clear_all(w0, e, d);
            lemma_clear_all(w0, e, d);
            lemma_put_in(w1, c, 1, d);
            assert(wsq(r, c, 1).contains(d));
        },
        MoveType::RookPromotion => {
            let w1 = clear_all(w0, e, d);
            lemma_clear_all(w0, e, d);
            lemma_put_in(w1, c, 2, d);
            assert(wsq(r, c, 2).contains(d));
        },
        MoveType::BishopPromotion => {
            let w1 = clear_all(w0, e, d);
            lemma_clear_all(w0, e, d);
            lemma_put_in(w1, c, 3, d);
            assert(wsq(r, c, 3).contains(d));
        },
        MoveType::KnightPromotion => {
            let w1 = clear_all(w0, e, d);
            lemma_clear_all(w0, e, d);
            lemma_put_in(w1, c, 4, d);
            assert(wsq(r, c, 4).contains(d));
        },
    }
}

/// Playing a move that fits keeps the position well formed, flips the side
/// to move and leaves exactly one piece on the destination.
pub proof fn lemma_make_fits(b: Board, m: u16)
    requires
        b.wf(),
        move_fits(b, m),
    ensures
        make_spec(b, m).wf(),
        make_spec(b, m).turn == opposite_of(b.turn),
        exactly_one_on(make_spec(b, m), destination_of(m)),
{
    let a = make_spec(b, m);
    let r = a.bitboards;
    let d = destination_of(m);
    let o = origin_of(m);
    let c = color_index(b.turn);
    lemma_moved_words(b, m);
    lemma_board_words(a);
    lemma_board_words(b);
    let (c1, k1) = choose|c1: int, k1: int| 0 <= c1 < 2 && 0 <= k1 < 6 && #[trigger] wsq(r, c1, k1).contains(d);
    lemma_exactly_one(r, c1, k1, d);
    assert(a.pieces(c1, k1).contains(d));
    assert forall|c2: int, k2: int|
        0 <= c2 < 2 && 0 <= k2 < 6 && (c2 != c1 || k2 != k1) implies !#[trigger] a.pieces(c2, k2).contains(d) by {
        assert(!wsq(r, c2, k2).contains(d));
    }
    if type_of(m) == MoveType::DoublePawnPush {
        let k = kind_index_at(b, c, o);
        let w0 = clear_in(b.bitboards, c, k, o);
        lemma_clear_in(b.bitboards, c, k, o);
        lemma_put_in(w0, c, k, d);
        let behind = if c == 0 { o + 8 } else { o - 8 };
        assert(!words_occupied(b.bitboards, behind));
        assert(!words_occupied(r, behind)) by {
            if words_occupied(r, behind) {
                let (c3, k3) = choose|c3: int, k3: int| 0 <= c3 < 2 && 0 <= k3 < 6 && #[trigger] wsq(r, c3, k3).contains(behind);
                assert(wsq(b.bitboards, c3, k3).contains(behind));
            }
        }
        assert(!a.occupied(behind));
    }
}

proof fn lemma_order_member(w: u64, i: int)
    requires
        0 <= i < order(w).len(),
    ensures
        squares(w).contains(order(w)[i]),
    decreases w,
{
    if w != 0 {
        lemma_lowest(w);
        if i > 0 {
            lemma_order_member(without_lowest(w), i - 1);
        }
    }
}

proof fn lemma_moves_from_member(b: Board, t: ChessTables, acc: Seq<u16>, sqs: Seq<int>, m: u16)
    requires
        moves_from(b, t, acc, sqs).contains(m),
    ensures
        acc.contains(m) || exists|i: int| 0 <= i < sqs.len() && #[trigger] piece_moves(b, t, sqs[i]).contains(m),
    decreases sqs.len(),
{
    if sqs.len() > 0 {
        let next = acc + piece_moves(b, t, sqs[0]);
        lemma_moves_from_member(b, t, next, sqs.drop_first(), m);
        if next.contains(m) {
            let j = choose|j: int| 0 <= j < next.len() && next[j] == m;
            if j >= acc.len() {
                assert(piece_moves(b, t, sqs[0])[j - acc.len()] == m);
                assert(piece_moves(b, t, sqs[0]).contains(m));
            } else {
                assert(acc[j] == m);
            }
        } else {
            let i = choose|i: int| 0 <= i < sqs.drop_first().len() && #[trigger] piece_moves(b, t, sqs.drop_first()[i]).contains(m);
            assert(sqs.drop_first()[i] == sqs[i + 1]);
        }
    }
}

proof fn lemma_dests_member(b: Board, t: ChessTables, s: int, acc: Seq<u16>, ds: Seq<int>, m: u16)
    requires
        dests_from(b, t, s, acc, ds).contains(m),
    ensures
        acc.contains(m) || exists|i: int| 0 <= i < ds.len() && #[trigger] tag_moves(b, t, s, ds[i]).contains(m),
    decreases ds.len(),
{
    if ds.len() > 0 {
        let next = acc + tag_moves(b, t, s, ds[0]);
        lemma_dests_member(b, t, s, next, ds.drop_first(), m);
        if next.contains(m) {
            let j = choose|j: int| 0 <= j < next.len() && next[j] == m;
            if j >= acc.len() {
                assert(tag_moves(b, t, s, ds[0])[j - acc.len()] == m);
                assert(tag_moves(b, t, s, ds[0]).contains(m));
            } else {
                assert(acc[j] == m);
            }
        } else {
            let i = choose|i: int| 0 <= i < ds.drop_first().len() && #[trigger] tag_moves(b, t, s, ds.drop_first()[i]).contains(m);
            assert(ds.drop_first()[i] == ds[i + 1]);
        }
    }
}

proof fn lemma_occupancy(b: Board, c: int)
    requires
        0 <= c < 2,
    ensures
        forall|s: int| #[trigger] squares(b.occupancy_word(c)).contains(s) == words_occupied_by(b.bitboards, c, s),
{
    let w = b.bitboards;
    lemma_squares_or(b.word(c, 0), b.word(c, 1));
    lemma_squares_or(b.word(c, 0) | b.word(c, 1), b.word(c, 2));
    lemma_squares_or(b.word(c, 0) | b.word(c, 1) | b.word(c, 2), b.word(c, 3));
    lemma_squares_or(b.word(c, 0) | b.word(c, 1) | b.word(c, 2) | b.word(c, 3), b.word(c, 4));
    lemma_squares_or(b.word(c, 0) | b.word(c, 1) | b.word(c, 2) | b.word(c, 3) | b.word(c, 4), b.word(c, 5));
    assert forall|s: int| #[trigger] squares(b.occupancy_word(c)).contains(s) == words_occupied_by(w, c, s) by {
        if words_occupied_by(w, c, s) {
            let k = choose|k: int| 0 <= k < 6 && #[trigger] wsq(w, c, k).contains(s);
            assert(squares(b.word(c, k)).contains(s));
        }
        if squares(b.occupancy_word(c)).contains(s) {
            if squares(b.word(c, 0)).contains(s) { assert(wsq(w, c, 0).contains(s)); }
            else if squares(b.word(c, 1)).contains(s) { assert(wsq(w, c, 1).contains(s)); }
            else if squares(b.word(c, 2)).contains(s) { assert(wsq(w, c, 2).contains(s)); }
            else if squares(b.word(c, 3)).contains(s) { assert(wsq(w, c, 3).contains(s)); }
            else if squares(b.word(c, 4)).contains(s) { assert(wsq(w, c, 4).contains(s)); }
            else { assert(wsq(w, c, 5).contains(s)); }
        }
    }
}

proof fn lemma_pawn_steps(s: int, c: int, q: int)
    requires
        0 <= s < 64,
        0 <= c < 2,
    ensures
        step_set(s, pawn_push_steps(c)).contains(q) ==> q == s + 8 * crate::geometry::forward(c),
        step_set(s, pawn_capture_steps(c)).contains(q) ==> q == s + 8 * crate::geometry::forward(c) + 1
            || q == s + 8 * crate::geometry::forward(c) - 1,
        (c == 0 && s / 8 == 1) ==> step_set(s, pawn_push_steps(c)).contains(s + 8),
        (c == 1 && s / 8 == 6) ==> step_set(s, pawn_push_steps(c)).contains(s - 8),
{
    if (c == 0 && s / 8 == 1) {
        assert(is_step(s, pawn_push_steps(c)[0].0 as int, pawn_push_steps(c)[0].1 as int, s + 8));
    }
    if (c == 1 && s / 8 == 6) {
        assert(is_step(s, pawn_push_steps(c)[0].0 as int, pawn_push_steps(c)[0].1 as int, s - 8));
    }
}

proof fn lemma_blockers()
    ensures
        squares(WHITE_KINGSIDE_BLOCKERS).contains(1) && squares(WHITE_KINGSIDE_BLOCKERS).contains(2),
        squares(WHITE_QUEENSIDE_BLOCKERS).contains(4) && squares(WHITE_QUEENSIDE_BLOCKERS).contains(5),
        squares(BLACK_KINGSIDE_BLOCKERS).contains(57) && squares(BLACK_KINGSIDE_BLOCKERS).contains(58),
        squares(BLACK_QUEENSIDE_BLOCKERS).contains(60) && squares(BLACK_QUEENSIDE_BLOCKERS).contains(61),
{
    assert((0x6u64 >> 1u64) & 1u64 == 1u64 && (0x6u64 >> 2u64) & 1u64 == 1u64 && (0x70u64 >> 4u64)
        & 1u64 == 1u64 && (0x70u64 >> 5u64) & 1u64 == 1u64 && (0x0600000000000000u64 >> 57u64)
        & 1u64 == 1u64 && (0x0600000000000000u64 >> 58u64) & 1u64 == 1u64 && (0x7000000000000000u64
        >> 60u64) & 1u64 == 1u64 && (0x7000000000000000u64 >> 61u64) & 1u64 == 1u64)
        by (bit_vector);
}

proof fn lemma_mask_not_friendly(b: Board, t: ChessTables, s: int, d: int)
    requires
        b.wf(),
        0 <= s < 64,
        squares(movement_mask(b, t, s, color_index(b.turn))).contains(d),
    ensures
        !words_occupied_by(b.bitboards, color_index(b.turn), d),
        0 <= d < 64,
{
    let c = color_index(b.turn);
    let w = b.bitboards;
    let friendly = b.occupancy_word(c);
    let enemy = b.occupancy_word(1 - c);
    let occ = friendly | enemy;
    lemma_occupancy(b, c);
    lemma_occupancy(b, 1 - c);
    lemma_board_words(b);
    lemma_squares_or(friendly, enemy);
    lemma_squares_not(friendly);
    lemma_squares_not(occ);
    let k = kind_index_at(b, c, s);
    let rook = crate::move_generation::rook_attacks(t, s, occ);
    let bishop = crate::move_generation::bishop_attacks(t, s, occ);
    if k == 0 {
        lemma_squares_and(table_word(t, 0, s), !friendly);
    } else if k == 1 {
        lemma_squares_and(rook | bishop, !friendly);
    } else if k == 2 {
        lemma_squares_and(rook, !friendly);
    } else if k == 3 {
        lemma_squares_and(bishop, !friendly);
    } else if k == 4 {
        lemma_squares_and(table_word(t, 4, s), !friendly);
    } else if k == 5 {
        let push = table_word(t, push_table(c), s);
        let single_push = push & !occ;
        let long = table_word(t, long_table(c), s) & !occ;
        let caps = table_word(t, capture_table(c), s) & enemy;
        lemma_squares_and(push, !occ);
        lemma_squares_and(table_word(t, long_table(c), s), !occ);
        lemma_squares_and(table_word(t, capture_table(c), s), enemy);
        lemma_squares_or(single_push, long);
        let pushes = if push & occ == 0 { single_push | long } else { single_push };
        lemma_squares_or(pushes, caps);
        if squares(caps).contains(d) {
            assert(words_occupied_by(w, 1 - c, d));
            let k2 = choose|k2: int| 0 <= k2 < 6 && #[trigger] wsq(w, 1 - c, k2).contains(d);
            if words_occupied_by(w, c, d) {
                let k1 = choose|k1: int| 0 <= k1 < 6 && #[trigger] wsq(w, c, k1).contains(d);
                assert(!wsq(w, 1 - c, k2).contains(d));
            }
        }
    } else {
        lemma_squares_empty(0);
    }
}

proof fn lemma_tag_fits(b: Board, t: ChessTables, s: int, d: int, m: u16)
    requires
        b.wf(),
        t.wf(),
        0 <= s < 64,
        kind_index_at(b, color_index(b.turn), s) < 6,
        squares(movement_mask(b, t, s, color_index(b.turn))).contains(d),
        tag_moves(b, t, s, d).contains(m),
    ensures
        move_fits(b, m),
{
    let c = color_index(b.turn);
    let w = b.bitboards;
    lemma_mask_not_friendly(b, t, s, d);
    lemma_occupancy(b, c);
    lemma_occupancy(b, 1 - c);
    lemma_board_words(b);
    let tags = tag_moves(b, t, s, d);
    let j = choose|j: int| 0 <= j < tags.len() && tags[j] == m;
    let pawn = kind_index_at(b, c, s) == 5;
    if pawn && squares(table_word(t, long_table(c), s)).contains(d) {
        lemma_pack_unpack(s, d, MoveType::DoublePawnPush);
        if c == 0 {
            assert(t.lookup_tables[9][s]@ == long_push_set(s, 0));
            assert(t.lookup_tables[5][s]@ == step_set(s, pawn_push_steps(0)));
            assert(t.lookup_tables[6][s]@ == step_set(s, pawn_capture_steps(0)));
        } else {
            assert(t.lookup_tables[10][s]@ == long_push_set(s, 1));
            assert(t.lookup_tables[7][s]@ == step_set(s, pawn_push_steps(1)));
            assert(t.lookup_tables[8][s]@ == step_set(s, pawn_capture_steps(1)));
        }
        assert(long_push_set(s, c).contains(d));
        let friendly = b.occupancy_word(c);
        let enemy = b.occupancy_word(1 - c);
        let occ = friendly | enemy;
        let push = table_word(t, push_table(c), s);
        let long = table_word(t, long_table(c), s) & !occ;
        let caps = table_word(t, capture_table(c), s) & enemy;
        lemma_squares_or(friendly, enemy);
        lemma_squares_not(occ);
        lemma_squares_and(push, !occ);
        lemma_squares_and(push, occ);
        lemma_squares_and(table_word(t, long_table(c), s), !occ);
        lemma_squares_and(table_word(t, capture_table(c), s), enemy);
        lemma_squares_or(push & !occ, long);
        let pushes = if push & occ == 0 { (push & !occ) | long } else { push & !occ };
        lemma_squares_or(pushes, caps);
        lemma_pawn_steps(s, c, d);
        let ahead = if c == 0 { s + 8 } else { s - 8 };
        lemma_pawn_steps(s, c, ahead);
        lemma_squares_empty(push & occ);
        assert(squares(push).contains(ahead));
        assert(push & occ == 0);
        assert(squares(push & occ) == Set::<int>::empty());
        assert(!squares(push & occ).contains(ahead));
        assert(!squares(push).intersect(squares(occ)).contains(ahead));
        assert(!squares(occ).contains(ahead));
        assert(!squares(occ).contains(d));
    } else if pawn && d / 8 == crate::move_generation::last_rank(c) {
        lemma_pack_unpack(s, d, MoveType::QueenPromotion);
        lemma_pack_unpack(s, d, MoveType::RookPromotion);
        lemma_pack_unpack(s, d, MoveType::BishopPromotion);
        lemma_pack_unpack(s, d, MoveType::KnightPromotion);
    } else if squares(b.occupancy_word(1 - c)).contains(d) {
        lemma_pack_unpack(s, d, MoveType::Capture);
    } else {
        lemma_pack_unpack(s, d, MoveType::QuietMove);
        if words_occupied(w, d) {
            let (c3, k3) = choose|c3: int, k3: int| 0 <= c3 < 2 && 0 <= k3 < 6 && #[trigger] wsq(w, c3, k3).contains(d);
            if c3 == c {
                assert(words_occupied_by(w, c, d));
            } else {
                assert(words_occupied_by(w, 1 - c, d));
            }
        }
    }
}

proof fn lemma_piece_moves_fit(b: Board, t: ChessTables, s: int, m: u16)
    requires
        b.wf(),
        t.wf(),
        0 <= s < 64,
        piece_moves(b, t, s).contains(m),
    ensures
        move_fits(b, m),
{
    let c = color_index(b.turn);
    let w = b.bitboards;
    let k = kind_index_at(b, c, s);
    let mask = movement_mask(b, t, s, c);
    let ep = en_passant_moves(b, t, s);
    let cm = castle_moves(b, t, s);
    let ds = dests_from(b, t, s, ep, order(mask));
    assert(k != 6);
    assert(piece_moves(b, t, s) == ds + cm);
    let j = choose|j: int| 0 <= j < (ds + cm).len() && (ds + cm)[j] == m;
    if j >= ds.len() {
        assert(cm[j - ds.len()] == m);
        let home: int = if c == 0 { 3 } else { 59 };
        let occ = b.occupancy_word(0) | b.occupancy_word(1);
        lemma_occupancy(b, 0);
        lemma_occupancy(b, 1);
        lemma_board_words(b);
        lemma_squares_or(b.occupancy_word(0), b.occupancy_word(1));
        lemma_blockers();
        let kb = if c == 0 { WHITE_KINGSIDE_BLOCKERS } else { BLACK_KINGSIDE_BLOCKERS };
        let qb = if c == 0 { WHITE_QUEENSIDE_BLOCKERS } else { BLACK_QUEENSIDE_BLOCKERS };
        lemma_squares_and(occ, kb);
        lemma_squares_and(occ, qb);
        lemma_squares_empty(occ & kb);
        lemma_squares_empty(occ & qb);
        lemma_pack_unpack(home, home - 2, MoveType::KingCastle);
        lemma_pack_unpack(home, home + 2, MoveType::QueenCastle);
        assert forall|q: int| #[trigger] words_occupied(w, q) implies squares(occ).contains(q) by {
            let (c3, k3) = choose|c3: int, k3: int| 0 <= c3 < 2 && 0 <= k3 < 6 && #[trigger] wsq(w, c3, k3).contains(q);
            assert(words_occupied_by(w, c3, q));
        }
        if m == pack_spec(home, home - 2, MoveType::KingCastle) && occ & kb == 0 {
            assert(!squares(occ & kb).contains(home - 2));
            assert(!squares(occ & kb).contains(home - 1));
        }
        if m == pack_spec(home, home + 2, MoveType::QueenCastle) && occ & qb == 0 {
            assert(!squares(occ & qb).contains(home + 2));
            assert(!squares(occ & qb).contains(home + 1));
        }
    } else {
        assert(ds[j] == m);
        lemma_dests_member(b, t, s, ep, order(mask), m);
        if ep.contains(m) {
            let e = b.en_passant.unwrap();
            assert(squares(table_word(t, capture_table(c), s)).contains(e as int));
            lemma_pack_unpack(s, e as int, MoveType::EnPassant);
        } else {
            let i = choose|i: int| 0 <= i < order(mask).len() && #[trigger] tag_moves(b, t, s, order(mask)[i]).contains(m);
            lemma_order_member(mask, i);
            lemma_tag_fits(b, t, s, order(mask)[i], m);
        }
    }
}

/// Every pseudo-legal move of a well-formed position fits it.
pub proof fn lemma_pseudo_legal_moves_fit(b: Board, t: ChessTables, m: u16)
    requires
        b.wf(),
        t.wf(),
        pseudo_legal_moves(b, t).contains(m),
    ensures
        move_fits(b, m),
{
    let own = b.occupancy_word(color_index(b.turn));
    lemma_moves_from_member(b, t, seq![], order(own), m);
    let i = choose|i: int| 0 <= i < order(own).len() && #[trigger] piece_moves(b, t, order(own)[i]).contains(m);
    lemma_order_member(own, i);
    lemma_piece_moves_fit(b, t, order(own)[i], m);
}

/// Playing a legal move flips the side to move, keeps the twelve piece sets
/// pairwise disjoint (and the position well formed), and leaves exactly one
/// piece on the destination square.
pub proof fn lemma_make_legal_move(b: Board, t: ChessTables, m: u16)
    requires
        b.wf(),
        t.wf(),
        legal_moves(b, t).contains(m),
    ensures
        make_spec(b, m).turn == opposite_of(b.turn),
        make_spec(b, m).disjoint(),
        make_spec(b, m).wf(),
        exactly_one_on(make_spec(b, m), destination_of(m)),
{
    lemma_legal_moves_are_pseudo_legal(b, t, m);
    lemma_pseudo_legal_moves_fit(b, t, m);
    lemma_make_fits(b, m);
}

/// Along any sequence of legal moves from a well-formed position, the twelve
/// piece sets stay pairwise disjoint.
pub proof fn lemma_piece_sets_stay_disjoint(b: Board, t: ChessTables, ms: Seq<u16>)
    requires
        b.wf(),
        t.wf(),
        forall|i: int| 0 <= i < ms.len() ==> legal_moves(#[trigger] play(b, ms.take(i)), t).contains(ms[i]),
    ensures
        play(b, ms).disjoint(),
        play(b, ms).wf(),
    decreases ms.len(),
{
    if ms.len() > 0 {
        assert(ms.take(0) =~= seq![]);
        assert(play(b, ms.take(0)) == b);
        lemma_make_legal_move(b, t, ms[0]);
        let next = make_spec(b, ms[0]);
        let rest = ms.drop_first();
        assert forall|i: int| 0 <= i < rest.len() implies legal_moves(#[trigger] play(next, rest.take(i)), t).contains(rest[i]) by {
            assert(ms.take(i + 1).drop_first() =~= rest.take(i));
            assert(ms.take(i + 1)[0] == ms[0]);
            assert(play(b, ms.take(i + 1)) == play(next, rest.take(i)));
            assert(legal_moves(play(b, ms.take(i + 1)), t).contains(ms[i + 1]));
        }
        lemma_piece_sets_stay_disjoint(next, t, rest);
    }
}

proof fn lemma_blocked_masked(s: int, dx: int, dy: int, j: int, k: int, occ: Set<int>, mask: Set<int>)
    requires
        0 <= s < 64,
        unit_dir(dx, dy),
        short_ray_set(s, dx, dy).subset_of(mask),
        1 <= j < k < 8,
        on_board(file_of(s) + k * dx, rank_of(s) + k * dy),
    ensures
        blocked_at(s, dx, dy, j, occ.intersect(mask)) == blocked_at(s, dx, dy, j, occ),
{
    assert(on_board(file_of(s) + (j + 1) * dx, rank_of(s) + (j + 1) * dy) && on_board(
        file_of(s) + j * dx,
        rank_of(s) + j * dy,
    )) by (nonlinear_arith)
        requires
            1 <= j < k < 8,
            -1 <= dx <= 1,
            -1 <= dy <= 1,
            0 <= file_of(s) < 8,
            0 <= rank_of(s) < 8,
            on_board(file_of(s) + k * dx, rank_of(s) + k * dy),
    ;
    let q = crate::geometry::sq_at(file_of(s) + j * dx, rank_of(s) + j * dy);
    assert(is_step(s, j * dx, j * dy, q));
    assert(short_ray_set(s, dx, dy).contains(q));
}

proof fn lemma_slide_ray_masked(s: int, dx: int, dy: int, occ: Set<int>, mask: Set<int>)
    requires
        0 <= s < 64,
        unit_dir(dx, dy),
        short_ray_set(s, dx, dy).subset_of(mask),
    ensures
        slide_ray(s, dx, dy, occ.intersect(mask)) == slide_ray(s, dx, dy, occ),
{
    let om = occ.intersect(mask);
    assert forall|q: int| #[trigger] slide_ray(s, dx, dy, om).contains(q) == slide_ray(s, dx, dy, occ).contains(q) by {
        if slide_ray(s, dx, dy, om).contains(q) {
            let k = choose|k: int|
                1 <= k < 8 && #[trigger] is_step(s, k * dx, k * dy, q) && forall|j: int|
                    1 <= j < k ==> !#[trigger] blocked_at(s, dx, dy, j, om);
            assert forall|j: int| 1 <= j < k implies !#[trigger] blocked_at(s, dx, dy, j, occ) by {
                lemma_blocked_masked(s, dx, dy, j, k, occ, mask);
            }
        }
        if slide_ray(s, dx, dy, occ).contains(q) {
            let k = choose|k: int|
                1 <= k < 8 && #[trigger] is_step(s, k * dx, k * dy, q) && forall|j: int|
                    1 <= j < k ==> !#[trigger] blocked_at(s, dx, dy, j, occ);
            assert forall|j: int| 1 <= j < k implies !#[trigger] blocked_at(s, dx, dy, j, om) by {
                lemma_blocked_masked(s, dx, dy, j, k, occ, mask);
            }
        }
    }
    assert(slide_ray(s, dx, dy, om) =~= slide_ray(s, dx, dy, occ));
}

proof fn lemma_slide_set_masked(s: int, dirs: Seq<(i32, i32)>, occ: u64)
    requires
        0 <= s < 64,
        crate::chess_data::unit_dirs(dirs),
    ensures
        slide_set(s, dirs, squares(occ).intersect(rays_set(s, dirs, true))) == slide_set(s, dirs, squares(occ)),
{
    let mask = rays_set(s, dirs, true);
    let o = squares(occ);
    assert forall|i: int| 0 <= i < dirs.len() implies #[trigger] slide_ray(s, dirs[i].0 as int, dirs[i].1 as int, o.intersect(mask))
        == slide_ray(s, dirs[i].0 as int, dirs[i].1 as int, o) by {
        assert(unit_dir(dirs[i].0 as int, dirs[i].1 as int));
        assert forall|q: int| short_ray_set(s, dirs[i].0 as int, dirs[i].1 as int).contains(q) implies mask.contains(q) by {
            assert(any_ray_set(s, dirs[i].0 as int, dirs[i].1 as int, true).contains(q));
        }
        lemma_slide_ray_masked(s, dirs[i].0 as int, dirs[i].1 as int, o, mask);
    }
    assert forall|q: int| #[trigger] slide_set(s, dirs, o.intersect(mask)).contains(q) == slide_set(s, dirs, o).contains(q) by {
        if slide_set(s, dirs, o.intersect(mask)).contains(q) {
            let i = choose|i: int| 0 <= i < dirs.len() && #[trigger] slide_ray(s, dirs[i].0 as int, dirs[i].1 as int, o.intersect(mask)).contains(q);
            assert(slide_ray(s, dirs[i].0 as int, dirs[i].1 as int, o).contains(q));
        }
        if slide_set(s, dirs, o).contains(q) {
            let i = choose|i: int| 0 <= i < dirs.len() && #[trigger] slide_ray(s, dirs[i].0 as int, dirs[i].1 as int, o).contains(q);
            assert(slide_ray(s, dirs[i].0 as int, dirs[i].1 as int, o.intersect(mask)).contains(q));
        }
    }
    assert(slide_set(s, dirs, o.intersect(mask)) =~= slide_set(s, dirs, o));
}

/// The magic lookups give the true slider attacks: masking the occupancy with
/// the relevance mask changes nothing, since a blocker on a ray's last
/// square stops nothing beyond it.
pub proof fn lemma_magic_lookups_exact(t: ChessTables, s: int, occ: u64)
    requires
        t.wf(),
        0 <= s < 64,
    ensures
        rook_attacks(t, s, occ) == attack_word(s, rook_dirs(), occ),
        bishop_attacks(t, s, occ) == attack_word(s, bishop_dirs(), occ),
{
    let rm = t.rook.masks@[s];
    let bm = t.bishop.masks@[s];
    assert(rm == t.lookup_tables[2][s].0);
    assert(bm == t.lookup_tables[3][s].0);
    assert(t.lookup_tables[2][s]@ == crate::geometry::rook_mask_set(s));
    assert(t.lookup_tables[3][s]@ == crate::geometry::bishop_mask_set(s));
    assert(squares(rm) == rays_set(s, rook_dirs(), true));
    assert(squares(bm) == rays_set(s, bishop_dirs(), true));
    lemma_squares_and(occ, rm);
    lemma_squares_and(occ, bm);
    assert(crate::chess_data::unit_dirs(rook_dirs()));
    assert(crate::chess_data::unit_dirs(bishop_dirs()));
    lemma_slide_set_masked(s, rook_dirs(), occ);
    lemma_slide_set_masked(s, bishop_dirs(), occ);
}

proof fn lemma_legal_from_keeps(b: Board, t: ChessTables, acc: Seq<u16>, ms: Seq<u16>, m: u16)
    requires
        acc.contains(m) || (ms.contains(m) && is_legal_after(b, t, m)),
    ensures
        legal_from(b, t, acc, ms).contains(m),
    decreases ms.len(),
{
    if ms.len() > 0 {
        let step = if is_legal_after(b, t, ms[0]) {
            seq![ms[0]]
        } else {
            seq![]
        };
        let next = acc + step;
        if acc.contains(m) {
            let i = choose|i: int| 0 <= i < acc.len() && acc[i] == m;
            assert(next[i] == m);
        } else if ms[0] == m {
            assert(next[acc.len() as int] == m);
        } else {
            let i = choose|i: int| 0 <= i < ms.len() && ms[i] == m;
            assert(ms.drop_first()[i - 1] == m);
        }
        lemma_legal_from_keeps(b, t, next, ms.drop_first(), m);
    }
}

/// The legal moves are exactly the pseudo-legal moves after which the
/// mover's king is on the board and attacked by no enemy piece.
pub proof fn lemma_legal_moves_exact(b: Board, t: ChessTables, m: u16)
    requires
        t.wf(),
    ensures
        legal_moves(b, t).contains(m) <==> (pseudo_legal_moves(b, t).contains(m) && make_spec(b, m).word(
            color_index(b.turn),
            0,
        ) != 0 && !crate::attacks::attacked_by(
            make_spec(b, m),
            1 - color_index(b.turn),
            lowest(make_spec(b, m).word(color_index(b.turn), 0)),
        )),
{
    let a = make_spec(b, m);
    let c = color_index(b.turn);
    if a.word(c, 0) != 0 {
        lemma_lowest(a.word(c, 0));
        crate::attacks::lemma_attackers_to_exact(a, t, lowest(a.word(c, 0)), c);
    }
    if legal_moves(b, t).contains(m) {
        lemma_legal_moves_are_pseudo_legal(b, t, m);
    }
    if pseudo_legal_moves(b, t).contains(m) && is_legal_after(b, t, m) {
        lemma_legal_from_keeps(b, t, seq![], pseudo_legal_moves(b, t), m);
    }
}

} // verus!
