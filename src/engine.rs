//! Static evaluation and fixed-depth negamax search with alpha-beta pruning.
use vstd::prelude::*;
use crate::bitboard::popcount;
use crate::chess_data::ChessTables;
use crate::move_generation::{
    all_decodable, board_state, full_capture_mask, legal_moves, make_spec, Words,
};
use crate::structs::{color_index, Board, BoardState};

verus! {

pub const QUEEN_VALUE: i32 = 1000;
pub const ROOK_VALUE: i32 = 500;
pub const BISHOP_VALUE: i32 = 350;
pub const KNIGHT_VALUE: i32 = 300;
pub const PAWN_VALUE: i32 = 100;
pub const MOBILITY_VALUE: i32 = 2;

/// A score beyond any material swing: the value of being mated.
pub const LARGE_VALUE_SAFE: i32 = 999_999;

/// Material of colour index `c`; kings are not counted.
pub open spec fn material(b: Board, c: int) -> int {
    (1000 * popcount(b.word(c, 1)) + 500 * popcount(b.word(c, 2)) + 350 * popcount(b.word(c, 3))
        + 300 * popcount(b.word(c, 4)) + 100 * popcount(b.word(c, 5))) as int
}

/// Mobility of colour index `c`: twice the number of squares its pieces may move to.
pub open spec fn mobility(b: Board, t: ChessTables, c: int) -> int {
    (2 * popcount(full_capture_mask(b, t, c))) as int
}

/// The score of `b` for the side to move.
pub open spec fn evaluation(b: Board, t: ChessTables) -> int {
    let c = color_index(b.turn);
    material(b, c) - material(b, 1 - c) + mobility(b, t, c) - mobility(b, t, 1 - c)
}

fn material_of(board: &Board, c: usize) -> (r: i32)
    requires
        c < 2,
    ensures
        r == material(*board, c as int),
        0 <= r <= 144000,
{
    let row = board.bitboards[c];
    let q = row[1].popcnt() as i32;
    let r = row[2].popcnt() as i32;
    let b = row[3].popcnt() as i32;
    let n = row[4].popcnt() as i32;
    let p = row[5].popcnt() as i32;
    q * QUEEN_VALUE + r * ROOK_VALUE + b * BISHOP_VALUE + n * KNIGHT_VALUE + p * PAWN_VALUE
}

/// Material and mobility of the side to move minus those of its opponent.
pub fn evaluate(board: &Board, tables: &ChessTables) -> (r: i32)
    requires
        tables.wf(),
    ensures
        r == evaluation(*board, *tables),
        -144128 <= r <= 144128,
{
    let c = board.turn.index();
    let e = board.turn.opposite().index();
    let own = material_of(board, c);
    let enemy = material_of(board, e);
    let own_mobility = board.get_full_capture_mask(board.turn, tables).popcnt() as i32
        * MOBILITY_VALUE;
    let enemy_mobility = board.get_full_capture_mask(board.turn.opposite(), tables).popcnt() as i32
        * MOBILITY_VALUE;
    own - enemy + own_mobility - enemy_mobility
}

/// Number of entries of `h` equal to `w`.
pub open spec fn count_in(h: Seq<Words>, w: Words) -> nat
    decreases h.len(),
{
    if h.len() == 0 {
        0
    } else {
        count_in(h.drop_last(), w) + if h.last() == w {
            1nat
        } else {
            0nat
        }
    }
}

pub open spec fn max_int(a: int, b: int) -> int {
    if a >= b {
        a
    } else {
        b
    }
}

/// The negamax score of `b`, `ply` plies below the root of a search to
/// `max_depth`, within the window `(alpha, beta)`; `hist` holds the piece
/// placements seen so far.
pub open spec fn negamax_spec(
    b: Board,
    t: ChessTables,
    ply: int,
    max_depth: int,
    hist: Seq<Words>,
    alpha: int,
    beta: int,
) -> int
    decreases max_depth - ply + 1, 0int,
{
    match board_state(b, t) {
        BoardState::Checkmate => -LARGE_VALUE_SAFE + ply,
        BoardState::Stalemate => 0,
        BoardState::OnGoing => if count_in(hist, b.bitboards) >= 2 {
            0
        } else if ply >= max_depth {
            evaluation(b, t)
        } else {
            search_moves(b, t, ply, max_depth, hist, legal_moves(b, t), alpha, beta, i32::MIN as int)
        },
    }
}

/// The alpha-beta loop over `ms`, with the best score `best` so far.
pub open spec fn search_moves(
    b: Board,
    t: ChessTables,
    ply: int,
    max_depth: int,
    hist: Seq<Words>,
    ms: Seq<u16>,
    alpha: int,
    beta: int,
    best: int,
) -> int
    decreases max_depth - ply, ms.len(),
{
    if ms.len() == 0 || ply >= max_depth {
        best
    } else {
        let after = make_spec(b, ms[0]);
        let score = -negamax_spec(after, t, ply + 1, max_depth, hist.push(after.bitboards), -beta, -alpha);
        let best2 = max_int(best, score);
        if best2 >= beta {
            best2
        } else {
            search_moves(b, t, ply, max_depth, hist, ms.drop_first(), max_int(alpha, best2), beta, best2)
        }
    }
}

fn same_pieces(a: &Words, b: &Words) -> (r: bool)
    ensures
        r == (*a == *b),
{
    let mut c: usize = 0;
    while c < 2
        invariant
            c <= 2,
            forall|i: int, k: int| 0 <= i < c && 0 <= k < 6 ==> #[trigger] a[i][k] == b[i][k],
        decreases 2 - c,
    {
        let mut k: usize = 0;
        while k < 6
            invariant
                c < 2,
                k <= 6,
                forall|i: int, j: int| 0 <= i < c && 0 <= j < 6 ==> #[trigger] a[i][j] == b[i][j],
                forall|j: int| 0 <= j < k ==> #[trigger] a[c as int][j] == b[c as int][j],
            decreases 6 - k,
        {
            if a[c][k].0 != b[c][k].0 {
                assert(a[c as int][k as int] != b[c as int][k as int]);
                return false;
            }
            k = k + 1;
        }
        assert(a[c as int] =~= b[c as int]);
        c = c + 1;
    }
    assert(a[0] =~= b[0]);
    assert(a[1] =~= b[1]);
    assert(*a =~= *b);
    true
}

fn count_seen(history: &Vec<Words>, w: &Words) -> (r: usize)
    ensures
        r == count_in(history@, *w),
{
    let mut count: usize = 0;
    let mut i: usize = 0;
    while i < history.len()
        invariant
            i <= history@.len(),
            count == count_in(history@.take(i as int), *w),
            count <= i,
        decreases history@.len() - i,
    {
        assert(history@.take(i as int + 1).drop_last() =~= history@.take(i as int));
        if same_pieces(&history[i], w) {
            count = count + 1;
        }
        i = i + 1;
    }
    assert(history@.take(history@.len() as int) =~= history@);
    count
}

/// Negamax with alpha-beta pruning: mates score `-LARGE_VALUE_SAFE + depth`,
/// stalemates and threefold repetitions of the piece placement score 0, and
/// the horizon is scored by `evaluate`.
pub fn negamax(
    depth: usize,
    max_depth: usize,
    board: Board,
    move_history: &mut Vec<Words>,
    alpha: i32,
    beta: i32,
    tables: &ChessTables,
) -> (r: i32)
    requires
        tables.wf(),
        depth <= max_depth <= 1000,
        -LARGE_VALUE_SAFE <= alpha <= LARGE_VALUE_SAFE,
        -LARGE_VALUE_SAFE <= beta <= LARGE_VALUE_SAFE,
    ensures
        r == negamax_spec(
            board,
            *tables,
            depth as int,
            max_depth as int,
            old(move_history)@,
            alpha as int,
            beta as int,
        ),
        -LARGE_VALUE_SAFE <= r <= LARGE_VALUE_SAFE,
        final(move_history)@ == old(move_history)@,
    decreases max_depth - depth,
{
    let ghost hist = move_history@;
    match board.get_board_state(tables) {
        BoardState::Checkmate => {
            return -LARGE_VALUE_SAFE + (depth as i32);
        },
        BoardState::Stalemate => {
            return 0;
        },
        BoardState::OnGoing => {},
    }
    if count_seen(move_history, &board.bitboards) >= 2 {
        return 0;
    }
    if depth >= max_depth {
        return evaluate(&board, tables);
    }
    let moves = board.get_all_legal_moves(tables);
    let ghost all = moves@;
    let mut best: i32 = i32::MIN;
    let mut a: i32 = alpha;
    let mut i: usize = 0;
    assert(moves@.subrange(0, moves@.len() as int) =~= moves@);
    while i < moves.len()
        invariant
            tables.wf(),
            depth < max_depth <= 1000,
            -LARGE_VALUE_SAFE <= a <= LARGE_VALUE_SAFE,
            -LARGE_VALUE_SAFE <= beta <= LARGE_VALUE_SAFE,
            i <= moves@.len(),
            moves@ == all,
            all.len() > 0,
            all_decodable(all),
            move_history@ == hist,
            hist == old(move_history)@,
            negamax_spec(board, *tables, depth as int, max_depth as int, hist, alpha as int, beta as int)
                == search_moves(board, *tables, depth as int, max_depth as int, hist, all, alpha as int, beta as int, i32::MIN as int),
            i == 0 ==> best == i32::MIN,
            i > 0 ==> -LARGE_VALUE_SAFE <= best <= LARGE_VALUE_SAFE,
            search_moves(board, *tables, depth as int, max_depth as int, hist, all.subrange(i as int, all.len() as int), a as int, beta as int, best as int)
                == search_moves(board, *tables, depth as int, max_depth as int, hist, all, alpha as int, beta as int, i32::MIN as int),
        decreases all.len() - i,
    {
        let ghost rest = all.subrange(i as int, all.len() as int);
        assert(rest.drop_first() =~= all.subrange(i as int + 1, all.len() as int));
        assert(decodable_at(all, i as int));
        let after = board.move_piece(moves[i]);
        move_history.push(after.bitboards);
        let child = negamax(depth + 1, max_depth, after, move_history, -beta, -a, tables);
        move_history.pop();
        assert(move_history@ =~= hist);
        let score = -child;
        if score > best {
            best = score;
        }
        if best >= beta {
            return best;
        }
        if best > a {
            a = best;
        }
        i = i + 1;
    }
    best
}

spec fn decodable_at(ms: Seq<u16>, i: int) -> bool {
    crate::structs::decodable(ms[i])
}

/// The score of the root move `m`: the negated search of the position after it.
pub open spec fn root_score(b: Board, t: ChessTables, depth: int, hist: Seq<Words>, m: u16) -> int {
    -negamax_spec(make_spec(b, m), t, 0, depth, hist, -LARGE_VALUE_SAFE as int, LARGE_VALUE_SAFE as int)
}

/// The first move of `ms` with the highest root score above `best_score`, or
/// `best` when none beats it.
pub open spec fn pick_best(
    b: Board,
    t: ChessTables,
    depth: int,
    hist: Seq<Words>,
    ms: Seq<u16>,
    best: u16,
    best_score: int,
) -> u16
    decreases ms.len(),
{
    if ms.len() == 0 {
        best
    } else {
        let s = root_score(b, t, depth, hist, ms[0]);
        if s > best_score {
            pick_best(b, t, depth, hist, ms.drop_first(), ms[0], s)
        } else {
            pick_best(b, t, depth, hist, ms.drop_first(), best, best_score)
        }
    }
}

/// The legal move with the highest score, the first one on ties; 0 when there
/// is no legal move.
pub open spec fn best_move_spec(b: Board, t: ChessTables, depth: int, hist: Seq<Words>) -> u16 {
    pick_best(b, t, depth, hist, legal_moves(b, t), 0, i32::MIN as int)
}

fn score_root(
    board: &Board,
    m: u16,
    depth: usize,
    move_history: &mut Vec<Words>,
    tables: &ChessTables,
) -> (r: i32)
    requires
        tables.wf(),
        depth <= 1000,
        crate::structs::decodable(m),
    ensures
        r == root_score(*board, *tables, depth as int, old(move_history)@, m),
        final(move_history)@ == old(move_history)@,
{
    let after = board.move_piece(m);
    let child = negamax(0, depth, after, move_history, -LARGE_VALUE_SAFE, LARGE_VALUE_SAFE, tables);
    -child
}

/// The legal move with the best search score `depth` plies deep.
pub fn get_best_move(
    depth: usize,
    board: Board,
    move_history: &mut Vec<Words>,
    tables: &ChessTables,
) -> (r: u16)
    requires
        tables.wf(),
        depth <= 1000,
    ensures
        r == best_move_spec(board, *tables, depth as int, old(move_history)@),
        final(move_history)@ == old(move_history)@,
{
    let ghost hist = move_history@;
    let moves = board.get_all_legal_moves(tables);
    let ghost all = moves@;
    let mut best_move: u16 = 0;
    let mut best_score: i32 = i32::MIN;
    let mut i: usize = 0;
    assert(all.subrange(0, all.len() as int) =~= all);
    while i < moves.len()
        invariant
            tables.wf(),
            depth <= 1000,
            i <= all.len(),
            moves@ == all,
            all_decodable(all),
            move_history@ == hist,
            hist == old(move_history)@,
            pick_best(board, *tables, depth as int, hist, all.subrange(i as int, all.len() as int), best_move, best_score as int)
                == best_move_spec(board, *tables, depth as int, hist),
        decreases all.len() - i,
    {
        let ghost rest = all.subrange(i as int, all.len() as int);
        assert(rest.drop_first() =~= all.subrange(i as int + 1, all.len() as int));
        assert(decodable_at(all, i as int));
        let score = score_root(&board, moves[i], depth, move_history, tables);
        if score > best_score {
            best_score = score;
            best_move = moves[i];
        }
        i = i + 1;
    }
    best_move
}

} // verus!
