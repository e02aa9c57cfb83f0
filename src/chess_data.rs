//! The precomputed per-square tables: king, knight and pawn targets, rays,
//! and the relevance masks of the sliders.
use vstd::prelude::*;
use crate::bitboard::{lemma_squares_empty, squares, BitBoard};
use crate::geometry::{
    file_of, is_step, king_steps, knight_steps, long_push_set, pawn_capture_steps, pawn_push_steps,
    rank_of, sq_at, step_set, on_board, any_ray_set, rays_set, rook_dirs, bishop_dirs, rook_mask_set,
    bishop_mask_set, ray_set,
};
use crate::magics::{MagicTable, MAGICS_BISHOP, MAGICS_ROOK, MAGIC_SHIFT_BISHOP, MAGIC_SHIFT_ROOK};
use crate::structs::{color_index, Color, BISHOP_MOVES, ROOK_MOVES};

verus! {

/// Whether `t` holds `f(p)` at every square `p`.
pub open spec fn table_matches(t: [BitBoard; 64], f: spec_fn(int) -> Set<int>) -> bool {
    forall|p: int| 0 <= p < 64 ==> #[trigger] t[p]@ == f(p)
}

pub open spec fn small_steps(steps: Seq<(i32, i32)>) -> bool {
    forall|i: int|
        0 <= i < steps.len() ==> -2 <= #[trigger] steps[i].0 <= 2 && -2 <= steps[i].1 <= 2
}

proof fn lemma_step_set_extend(p: int, steps: Seq<(i32, i32)>, i: int)
    requires
        0 <= i < steps.len(),
    ensures
        step_set(p, steps.take(i + 1)) == step_set(p, steps.take(i)).union(
            Set::new(|q: int| is_step(p, steps[i].0 as int, steps[i].1 as int, q)),
        ),
{
    let s1 = steps.take(i);
    let s2 = steps.take(i + 1);
    let extra = Set::new(|q: int| is_step(p, steps[i].0 as int, steps[i].1 as int, q));
    assert forall|q: int| #[trigger]
        step_set(p, s2).contains(q) == step_set(p, s1).union(extra).contains(q) by {
        if step_set(p, s2).contains(q) {
            let j = choose|j: int|
                0 <= j < s2.len() && #[trigger] is_step(p, s2[j].0 as int, s2[j].1 as int, q);
            if j < i {
                assert(s1[j] == s2[j]);
                assert(is_step(p, s1[j].0 as int, s1[j].1 as int, q));
            }
        }
        if step_set(p, s1).contains(q) {
            let j = choose|j: int|
                0 <= j < s1.len() && #[trigger] is_step(p, s1[j].0 as int, s1[j].1 as int, q);
            assert(s1[j] == s2[j]);
            assert(is_step(p, s2[j].0 as int, s2[j].1 as int, q));
        }
        if extra.contains(q) {
            assert(s2[i] == steps[i]);
            assert(is_step(p, s2[i].0 as int, s2[i].1 as int, q));
        }
    }
    assert(step_set(p, s2) =~= step_set(p, s1).union(extra));
}

/// The squares one of `steps` away from `position`.
fn step_targets(position: u8, steps: &Vec<(i32, i32)>) -> (r: BitBoard)
    requires
        position < 64,
        small_steps(steps@),
    ensures
        r@ == step_set(position as int, steps@),
{
    let ghost p = position as int;
    let mut r = BitBoard(0);
    proof {
        lemma_squares_empty(0);
        assert(step_set(p, steps@.take(0)) =~= Set::<int>::empty());
    }
    let x = (position % 8) as i32;
    let y = (position / 8) as i32;
    let mut i: usize = 0;
    while i < steps.len()
        invariant
            position < 64,
            p == position as int,
            x == file_of(p),
            y == rank_of(p),
            small_steps(steps@),
            i <= steps@.len(),
            r@ == step_set(p, steps@.take(i as int)),
        decreases steps@.len() - i,
    {
        let (dx, dy) = steps[i];
        assert(-2 <= steps@[i as int].0 <= 2 && -2 <= steps@[i as int].1 <= 2);
        let nx = x + dx;
        let ny = y + dy;
        let ghost extra = Set::new(
            |q: int| is_step(p, steps@[i as int].0 as int, steps@[i as int].1 as int, q),
        );
        proof {
            lemma_step_set_extend(p, steps@, i as int);
        }
        if 0 <= nx && nx < 8 && 0 <= ny && ny < 8 {
            r.set_bit((ny * 8 + nx) as u8);
            proof {
                assert(extra =~= set![sq_at(nx as int, ny as int)]);
            }
        } else {
            proof {
                assert(extra =~= Set::<int>::empty());
            }
        }
        i = i + 1;
    }
    proof {
        assert(steps@.take(steps@.len() as int) =~= steps@);
    }
    r
}

/// The table of `step_targets` over all squares.
fn step_table(steps: &Vec<(i32, i32)>) -> (r: [BitBoard; 64])
    requires
        small_steps(steps@),
    ensures
        forall|p: int| 0 <= p < 64 ==> #[trigger] r[p]@ == step_set(p, steps@),
{
    let mut moves = [BitBoard(0);64];
    let mut position: u8 = 0;
    while position < 64
        invariant
            position <= 64,
            small_steps(steps@),
            forall|p: int| 0 <= p < position ==> #[trigger] moves[p]@ == step_set(p, steps@),
        decreases 64 - position,
    {
        let t = step_targets(position, steps);
        moves[position as usize] = t;
        position = position + 1;
    }
    moves
}

pub fn generate_king_moves() -> (r: [BitBoard; 64])
    ensures
        forall|p: int| 0 <= p < 64 ==> #[trigger] r[p]@ == step_set(p, king_steps()),
{
    let steps: Vec<(i32, i32)> = vec![(1, 1), (0, 1), (-1, 1), (1, 0), (-1, 0), (1, -1), (0, -1), (-1, -1)];
    assert(steps@ =~= king_steps());
    step_table(&steps)
}

pub fn generate_knight_moves() -> (r: [BitBoard; 64])
    ensures
        forall|p: int| 0 <= p < 64 ==> #[trigger] r[p]@ == step_set(p, knight_steps()),
{
    let steps: Vec<(i32, i32)> = vec![(1, 2), (-1, 2), (2, 1), (-2, 1), (-1, -2), (1, -2), (-2, -1), (2, -1)];
    assert(steps@ =~= knight_steps());
    step_table(&steps)
}

/// Single pushes of a pawn of `color`: none from the last rank.
pub fn generate_pawn_moves(color: Color) -> (r: [BitBoard; 64])
    ensures
        forall|p: int|
            0 <= p < 64 ==> #[trigger] r[p]@ == step_set(p, pawn_push_steps(color_index(color))),
{
    let f: i32 = match color {
        Color::White => 1,
        Color::Black => -1,
    };
    let steps: Vec<(i32, i32)> = vec![(0, f)];
    assert(steps@ =~= pawn_push_steps(color_index(color)));
    step_table(&steps)
}

/// The two diagonal captures of a pawn of `color`.
pub fn generate_pawn_captures(color: Color) -> (r: [BitBoard; 64])
    ensures
        forall|p: int|
            0 <= p < 64 ==> #[trigger] r[p]@ == step_set(
                p,
                pawn_capture_steps(color_index(color)),
            ),
{
    let f: i32 = match color {
        Color::White => 1,
        Color::Black => -1,
    };
    let steps: Vec<(i32, i32)> = vec![(1, f), (-1, f)];
    assert(steps@ =~= pawn_capture_steps(color_index(color)));
    step_table(&steps)
}

/// Double pushes of a pawn of `color` from its second rank.
pub fn generate_long_pawn_moves(color: Color) -> (r: [BitBoard; 64])
    ensures
        forall|p: int|
            0 <= p < 64 ==> #[trigger] r[p]@ == long_push_set(p, color_index(color)),
{
    let mut moves = [BitBoard(0);64];
    let mut position: u8 = 0;
    while position < 64
        invariant
            position <= 64,
            forall|p: int|
                0 <= p < position ==> #[trigger] moves[p]@ == long_push_set(
                    p,
                    color_index(color),
                ),
        decreases 64 - position,
    {
        let mut b = BitBoard(0);
        proof {
            lemma_squares_empty(0);
        }
        match color {
            Color::White => {
                if position / 8 == 1 {
                    b.set_bit(position + 16);
                }
            },
            Color::Black => {
                if position / 8 == 6 {
                    b.set_bit(position - 16);
                }
            },
        }
        proof {
            assert(b@ =~= long_push_set(position as int, color_index(color)));
        }
        moves[position as usize] = b;
        position = position + 1;
    }
    moves
}

} // verus!

verus! {

/// Squares at distances `1 .. n` along `(dx, dy)` from `p` (only those whose
/// next square is on the board as well, when `short` holds).
spec fn ray_upto(p: int, dx: int, dy: int, short: bool, n: int) -> Set<int> {
    Set::new(
        |q: int|
            exists|k: int|
                1 <= k < n && #[trigger] is_step(p, k * dx, k * dy, q) && (short ==> on_board(
                    file_of(p) + (k + 1) * dx,
                    rank_of(p) + (k + 1) * dy,
                )),
    )
}

pub open spec fn unit_dir(dx: int, dy: int) -> bool {
    -1 <= dx <= 1 && -1 <= dy <= 1
}

/// The ray (or short ray) from `position` along `(dx, dy)` on an empty board.
fn ray_targets(position: u8, dx: i32, dy: i32, short: bool) -> (r: BitBoard)
    requires
        position < 64,
        unit_dir(dx as int, dy as int),
    ensures
        r@ == any_ray_set(position as int, dx as int, dy as int, short),
{
    let ghost p = position as int;
    let x = (position % 8) as i32;
    let y = (position / 8) as i32;
    let mut r = BitBoard(0);
    proof {
        lemma_squares_empty(0);
        assert(ray_upto(p, dx as int, dy as int, short, 1) =~= Set::<int>::empty());
    }
    let mut k: i32 = 1;
    while k < 8
        invariant
            1 <= k <= 8,
            position < 64,
            p == position as int,
            x == file_of(p),
            y == rank_of(p),
            unit_dir(dx as int, dy as int),
            r@ == ray_upto(p, dx as int, dy as int, short, k as int),
        decreases 8 - k,
    {
        assert(-8 <= k * dx <= 8 && -8 <= k * dy <= 8 && -9 <= (k + 1) * dx <= 9 && -9 <= (k
            + 1) * dy <= 9) by (nonlinear_arith)
            requires
                1 <= k < 8,
                -1 <= dx <= 1,
                -1 <= dy <= 1,
        ;
        let nx = x + k * dx;
        let ny = y + k * dy;
        let fx = x + (k + 1) * dx;
        let fy = y + (k + 1) * dy;
        let here = 0 <= nx && nx < 8 && 0 <= ny && ny < 8;
        let next = 0 <= fx && fx < 8 && 0 <= fy && fy < 8;
        let ghost before = r@;
        if here && (!short || next) {
            r.set_bit((ny * 8 + nx) as u8);
        }
        proof {
            let n = k as int;
            assert forall|q: int| #[trigger]
                ray_upto(p, dx as int, dy as int, short, n + 1).contains(q) == r@.contains(q) by {
                if ray_upto(p, dx as int, dy as int, short, n + 1).contains(q) {
                    let j = choose|j: int|
                        1 <= j < n + 1 && #[trigger] is_step(p, j * dx, j * dy, q) && (short
                            ==> on_board(file_of(p) + (j + 1) * dx, rank_of(p) + (j + 1) * dy));
                    if j < n {
                        assert(before.contains(q));
                    }
                }
                if before.contains(q) {
                    let j = choose|j: int|
                        1 <= j < n && #[trigger] is_step(p, j * dx, j * dy, q) && (short
                            ==> on_board(file_of(p) + (j + 1) * dx, rank_of(p) + (j + 1) * dy));
                    assert(1 <= j < n + 1);
                }
                if here && (!short || next) && q == sq_at(nx as int, ny as int) {
                    assert(is_step(p, n * dx, n * dy, q));
                }
            }
            assert(ray_upto(p, dx as int, dy as int, short, n + 1) =~= r@);
        }
        k = k + 1;
    }
    proof {
        assert(ray_upto(p, dx as int, dy as int, short, 8) =~= any_ray_set(
            p,
            dx as int,
            dy as int,
            short,
        ));
    }
    r
}

pub open spec fn unit_dirs(dirs: Seq<(i32, i32)>) -> bool {
    forall|i: int| 0 <= i < dirs.len() ==> unit_dir(#[trigger] dirs[i].0 as int, dirs[i].1 as int)
}

/// The union of the rays (or short rays) from `position` along `dirs`.
fn rays_targets(position: u8, dirs: &Vec<(i32, i32)>, short: bool) -> (r: BitBoard)
    requires
        position < 64,
        unit_dirs(dirs@),
    ensures
        r@ == rays_set(position as int, dirs@, short),
{
    let ghost p = position as int;
    let mut r = BitBoard(0);
    proof {
        lemma_squares_empty(0);
        assert(rays_set(p, dirs@.take(0), short) =~= Set::<int>::empty());
    }
    let mut i: usize = 0;
    while i < dirs.len()
        invariant
            position < 64,
            p == position as int,
            unit_dirs(dirs@),
            i <= dirs@.len(),
            r@ == rays_set(p, dirs@.take(i as int), short),
        decreases dirs@.len() - i,
    {
        let (dx, dy) = dirs[i];
        assert(unit_dir(dirs@[i as int].0 as int, dirs@[i as int].1 as int));
        let ray = ray_targets(position, dx, dy, short);
        let ghost before = r@;
        r = r.or(ray);
        proof {
            let s1 = dirs@.take(i as int);
            let s2 = dirs@.take(i as int + 1);
            assert forall|q: int| #[trigger] rays_set(p, s2, short).contains(q) == r@.contains(q) by {
                if rays_set(p, s2, short).contains(q) {
                    let j = choose|j: int|
                        0 <= j < s2.len() && #[trigger] any_ray_set(
                            p,
                            s2[j].0 as int,
                            s2[j].1 as int,
                            short,
                        ).contains(q);
                    if j < i {
                        assert(s1[j] == s2[j]);
                        assert(any_ray_set(p, s1[j].0 as int, s1[j].1 as int, short).contains(q));
                    }
                }
                if before.contains(q) {
                    let j = choose|j: int|
                        0 <= j < s1.len() && #[trigger] any_ray_set(
                            p,
                            s1[j].0 as int,
                            s1[j].1 as int,
                            short,
                        ).contains(q);
                    assert(s1[j] == s2[j]);
                    assert(any_ray_set(p, s2[j].0 as int, s2[j].1 as int, short).contains(q));
                }
                if ray@.contains(q) {
                    assert(s2[i as int] == dirs@[i as int]);
                    assert(any_ray_set(p, s2[i as int].0 as int, s2[i as int].1 as int, short).contains(q));
                }
            }
            assert(rays_set(p, s2, short) =~= r@);
        }
        i = i + 1;
    }
    proof {
        assert(dirs@.take(dirs@.len() as int) =~= dirs@);
    }
    r
}

/// The table of `rays_targets` over all squares.
fn rays_table(dirs: &Vec<(i32, i32)>, short: bool) -> (r: [BitBoard; 64])
    requires
        unit_dirs(dirs@),
    ensures
        forall|p: int| 0 <= p < 64 ==> #[trigger] r[p]@ == rays_set(p, dirs@, short),
{
    let mut moves = [BitBoard(0);64];
    let mut position: u8 = 0;
    while position < 64
        invariant
            position <= 64,
            unit_dirs(dirs@),
            forall|p: int| 0 <= p < position ==> #[trigger] moves[p]@ == rays_set(p, dirs@, short),
        decreases 64 - position,
    {
        let t = rays_targets(position, dirs, short);
        moves[position as usize] = t;
        position = position + 1;
    }
    moves
}

fn rook_dir_list() -> (r: Vec<(i32, i32)>)
    ensures
        r@ == rook_dirs(),
        unit_dirs(r@),
{
    let r: Vec<(i32, i32)> = vec![(0, 1), (1, 0), (-1, 0), (0, -1)];
    assert(r@ =~= rook_dirs());
    r
}

fn bishop_dir_list() -> (r: Vec<(i32, i32)>)
    ensures
        r@ == bishop_dirs(),
        unit_dirs(r@),
{
    let r: Vec<(i32, i32)> = vec![(1, 1), (-1, 1), (1, -1), (-1, -1)];
    assert(r@ =~= bishop_dirs());
    r
}

/// Rook moves on an empty board.
pub fn generate_rook_moves() -> (r: [BitBoard; 64])
    ensures
        forall|p: int| 0 <= p < 64 ==> #[trigger] r[p]@ == rays_set(p, rook_dirs(), false),
{
    rays_table(&rook_dir_list(), false)
}

/// The rook relevance masks: the rook's rays without their last squares.
pub fn generate_rook_moves_short() -> (r: [BitBoard; 64])
    ensures
        forall|p: int| 0 <= p < 64 ==> #[trigger] r[p]@ == rook_mask_set(p),
{
    rays_table(&rook_dir_list(), true)
}

/// Bishop moves on an empty board.
pub fn generate_bishop_moves() -> (r: [BitBoard; 64])
    ensures
        forall|p: int| 0 <= p < 64 ==> #[trigger] r[p]@ == rays_set(p, bishop_dirs(), false),
{
    rays_table(&bishop_dir_list(), false)
}

/// The bishop relevance masks: the bishop's rays without their last squares.
pub fn generate_bishop_moves_short() -> (r: [BitBoard; 64])
    ensures
        forall|p: int| 0 <= p < 64 ==> #[trigger] r[p]@ == bishop_mask_set(p),
{
    rays_table(&bishop_dir_list(), true)
}

/// Queen moves on an empty board.
pub fn generate_queen_moves() -> (r: [BitBoard; 64])
    ensures
        forall|p: int|
            0 <= p < 64 ==> #[trigger] r[p]@ == rays_set(p, rook_dirs(), false).union(
                rays_set(p, bishop_dirs(), false),
            ),
{
    let straight = generate_rook_moves();
    let diagonal = generate_bishop_moves();
    let mut moves = [BitBoard(0);64];
    let mut position: usize = 0;
    while position < 64
        invariant
            position <= 64,
            forall|p: int| 0 <= p < 64 ==> #[trigger] straight[p]@ == rays_set(p, rook_dirs(), false),
            forall|p: int| 0 <= p < 64 ==> #[trigger] diagonal[p]@ == rays_set(p, bishop_dirs(), false),
            forall|p: int|
                0 <= p < position ==> #[trigger] moves[p]@ == rays_set(p, rook_dirs(), false).union(
                    rays_set(p, bishop_dirs(), false),
                ),
        decreases 64 - position,
    {
        moves[position] = straight[position].or(diagonal[position]);
        position = position + 1;
    }
    moves
}

} // verus!

verus! {

/// The ray from every square along `direction` (a file step and a rank step).
pub fn calculate_sliding(direction: [i32; 2]) -> (r: [u64; 64])
    requires
        unit_dir(direction[0] as int, direction[1] as int),
    ensures
        forall|p: int|
            0 <= p < 64 ==> #[trigger] squares(r[p]) == ray_set(
                p,
                direction[0] as int,
                direction[1] as int,
            ),
{
    let mut table = [0u64;64];
    let mut position: u8 = 0;
    while position < 64
        invariant
            position <= 64,
            unit_dir(direction[0] as int, direction[1] as int),
            forall|p: int|
                0 <= p < position ==> #[trigger] squares(table[p]) == ray_set(
                    p,
                    direction[0] as int,
                    direction[1] as int,
                ),
        decreases 64 - position,
    {
        let ray = ray_targets(position, direction[0], direction[1], false);
        table[position as usize] = ray.0;
        position = position + 1;
    }
    table
}

/// The eight ray tables.
pub struct RaycastTables {
    pub north_west: [u64; 64],
    pub north: [u64; 64],
    pub north_east: [u64; 64],
    pub west: [u64; 64],
    pub east: [u64; 64],
    pub south_west: [u64; 64],
    pub south: [u64; 64],
    pub south_east: [u64; 64],
}

pub open spec fn ray_table_ok(t: [u64; 64], dx: int, dy: int) -> bool {
    forall|p: int| 0 <= p < 64 ==> #[trigger] squares(t[p]) == ray_set(p, dx, dy)
}

impl RaycastTables {
    pub fn new() -> (r: RaycastTables)
        ensures
            ray_table_ok(r.north_west, 1, 1),
            ray_table_ok(r.north, 0, 1),
            ray_table_ok(r.north_east, -1, 1),
            ray_table_ok(r.west, 1, 0),
            ray_table_ok(r.east, -1, 0),
            ray_table_ok(r.south_west, 1, -1),
            ray_table_ok(r.south, 0, -1),
            ray_table_ok(r.south_east, -1, -1),
    {
        RaycastTables {
            north_west: calculate_sliding([1, 1]),
            north: calculate_sliding([0, 1]),
            north_east: calculate_sliding([-1, 1]),
            west: calculate_sliding([1, 0]),
            east: calculate_sliding([-1, 0]),
            south_west: calculate_sliding([1, -1]),
            south: calculate_sliding([0, -1]),
            south_east: calculate_sliding([-1, -1]),
        }
    }
}

impl Default for RaycastTables {
    fn default() -> (r: RaycastTables)
        ensures
            ray_table_ok(r.north_west, 1, 1),
            ray_table_ok(r.north, 0, 1),
            ray_table_ok(r.north_east, -1, 1),
            ray_table_ok(r.west, 1, 0),
            ray_table_ok(r.east, -1, 0),
            ray_table_ok(r.south_west, 1, -1),
            ray_table_ok(r.south, 0, -1),
            ray_table_ok(r.south_east, -1, -1),
    {
        RaycastTables::new()
    }
}

/// The twelve lookup tables, each as `generate_data` lays them out.
pub open spec fn lookup_tables_ok(t: [[BitBoard; 64]; 12]) -> bool {
    &&& forall|p: int| 0 <= p < 64 ==> #[trigger] t[0][p]@ == step_set(p, king_steps())
    &&& forall|p: int|
        0 <= p < 64 ==> #[trigger] t[1][p]@ == rays_set(p, rook_dirs(), false).union(
            rays_set(p, bishop_dirs(), false),
        )
    &&& forall|p: int| 0 <= p < 64 ==> #[trigger] t[2][p]@ == rook_mask_set(p)
    &&& forall|p: int| 0 <= p < 64 ==> #[trigger] t[3][p]@ == bishop_mask_set(p)
    &&& forall|p: int| 0 <= p < 64 ==> #[trigger] t[4][p]@ == step_set(p, knight_steps())
    &&& forall|p: int| 0 <= p < 64 ==> #[trigger] t[5][p]@ == step_set(p, pawn_push_steps(0))
    &&& forall|p: int| 0 <= p < 64 ==> #[trigger] t[6][p]@ == step_set(p, pawn_capture_steps(0))
    &&& forall|p: int| 0 <= p < 64 ==> #[trigger] t[7][p]@ == step_set(p, pawn_push_steps(1))
    &&& forall|p: int| 0 <= p < 64 ==> #[trigger] t[8][p]@ == step_set(p, pawn_capture_steps(1))
    &&& forall|p: int| 0 <= p < 64 ==> #[trigger] t[9][p]@ == long_push_set(p, 0)
    &&& forall|p: int| 0 <= p < 64 ==> #[trigger] t[10][p]@ == long_push_set(p, 1)
    &&& forall|p: int| 0 <= p < 64 ==> #[trigger] t[11][p]@ == Set::<int>::empty()
}

pub fn generate_data() -> (r: [[BitBoard; 64]; 12])
    ensures
        lookup_tables_ok(r),
{
    let blank = [BitBoard(0);64];
    proof {
        lemma_squares_empty(0);
    }
    [
        generate_king_moves(),
        generate_queen_moves(),
        generate_rook_moves_short(),
        generate_bishop_moves_short(),
        generate_knight_moves(),
        generate_pawn_moves(Color::White),
        generate_pawn_captures(Color::White),
        generate_pawn_moves(Color::Black),
        generate_pawn_captures(Color::Black),
        generate_long_pawn_moves(Color::White),
        generate_long_pawn_moves(Color::Black),
        blank,
    ]
}

/// Every table the engine reads: the per-square lookup tables and the two
/// magic tables of the sliders.
pub struct ChessTables {
    pub lookup_tables: [[BitBoard; 64]; 12],
    pub rook: MagicTable,
    pub bishop: MagicTable,
}

impl ChessTables {
    pub open spec fn wf(&self) -> bool {
        &&& lookup_tables_ok(self.lookup_tables)
        &&& self.rook.wf()
        &&& self.bishop.wf()
        &&& self.rook.dirs@ == rook_dirs()
        &&& self.bishop.dirs@ == bishop_dirs()
        &&& forall|p: int| 0 <= p < 64 ==> #[trigger] self.rook.masks@[p] == self.lookup_tables[2][p].0
        &&& forall|p: int| 0 <= p < 64 ==> #[trigger] self.bishop.masks@[p] == self.lookup_tables[3][p].0
    }

    pub fn new() -> (r: ChessTables)
        ensures
            r.wf(),
    {
        let lookup_tables = generate_data();
        let rook = MagicTable::build(
            &MAGICS_ROOK,
            &lookup_tables[ROOK_MOVES],
            MAGIC_SHIFT_ROOK,
            4096,
            rook_dir_list(),
        );
        let bishop = MagicTable::build(
            &MAGICS_BISHOP,
            &lookup_tables[BISHOP_MOVES],
            MAGIC_SHIFT_BISHOP,
            8192,
            bishop_dir_list(),
        );
        ChessTables { lookup_tables, rook, bishop }
    }
}

impl Default for ChessTables {
    fn default() -> (r: ChessTables)
        ensures
            r.wf(),
    {
        ChessTables::new()
    }
}

} // verus!
