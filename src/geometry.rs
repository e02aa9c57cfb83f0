//! Board geometry: files, ranks, steps and rays.
//!
//! Square `s` has file `s % 8` and rank `s / 8`; file 0 is the h-file and
//! rank 0 is the first rank, so square 0 is h1 and square 7 is a1.
use vstd::prelude::*;

verus! {

pub open spec fn on_board(x: int, y: int) -> bool {
    0 <= x < 8 && 0 <= y < 8
}

pub open spec fn sq_at(x: int, y: int) -> int {
    y * 8 + x
}

pub open spec fn file_of(s: int) -> int {
    s % 8
}

pub open spec fn rank_of(s: int) -> int {
    s / 8
}

/// Whether `q` is the square one step `(dx, dy)` away from `s`.
pub open spec fn is_step(s: int, dx: int, dy: int, q: int) -> bool {
    on_board(file_of(s) + dx, rank_of(s) + dy) && q == sq_at(file_of(s) + dx, rank_of(s) + dy)
}

/// The squares reached from `s` by one of `steps`.
pub open spec fn step_set(s: int, steps: Seq<(i32, i32)>) -> Set<int> {
    Set::new(
        |q: int|
            exists|i: int|
                0 <= i < steps.len() && #[trigger] is_step(s, steps[i].0 as int, steps[i].1 as int, q),
    )
}

pub open spec fn king_steps() -> Seq<(i32, i32)> {
    seq![(1i32, 1i32), (0i32, 1i32), (-1i32, 1i32), (1i32, 0i32), (-1i32, 0i32), (1i32, -1i32), (0i32, -1i32), (-1i32, -1i32)]
}

pub open spec fn knight_steps() -> Seq<(i32, i32)> {
    seq![(1i32, 2i32), (-1i32, 2i32), (2i32, 1i32), (-2i32, 1i32), (-1i32, -2i32), (1i32, -2i32), (-2i32, -1i32), (2i32, -1i32)]
}

/// The direction in which a pawn of colour index `c` advances.
pub open spec fn forward(c: int) -> i32 {
    if c == 0 {
        1i32
    } else {
        -1i32
    }
}

pub open spec fn pawn_push_steps(c: int) -> Seq<(i32, i32)> {
    seq![(0i32, forward(c))]
}

pub open spec fn pawn_capture_steps(c: int) -> Seq<(i32, i32)> {
    seq![(1i32, forward(c)), (-1i32, forward(c))]
}

/// The double push of a pawn of colour index `c` from its second rank.
pub open spec fn long_push_set(s: int, c: int) -> Set<int> {
    if (c == 0 && rank_of(s) == 1) {
        set![s + 16]
    } else if (c == 1 && rank_of(s) == 6) {
        set![s - 16]
    } else {
        Set::empty()
    }
}

/// The squares reached from `s` by sliding `(dx, dy)` over an empty board.
pub open spec fn ray_set(s: int, dx: int, dy: int) -> Set<int> {
    Set::new(
        |q: int|
            exists|k: int|
                1 <= k < 8 && #[trigger] is_step(s, k * dx, k * dy, q),
    )
}

/// The ray from `s` without its last square: the squares whose occupancy can
/// stop a slider.
pub open spec fn short_ray_set(s: int, dx: int, dy: int) -> Set<int> {
    Set::new(
        |q: int|
            exists|k: int|
                1 <= k < 8 && #[trigger] is_step(s, k * dx, k * dy, q) && on_board(
                    file_of(s) + (k + 1) * dx,
                    rank_of(s) + (k + 1) * dy,
                ),
    )
}

pub open spec fn rook_dirs() -> Seq<(i32, i32)> {
    seq![(0i32, 1i32), (1i32, 0i32), (-1i32, 0i32), (0i32, -1i32)]
}

pub open spec fn bishop_dirs() -> Seq<(i32, i32)> {
    seq![(1i32, 1i32), (-1i32, 1i32), (1i32, -1i32), (-1i32, -1i32)]
}

/// Union of the rays from `s` along `dirs`.
/// A ray, or a short ray when `short` holds.
pub open spec fn any_ray_set(s: int, dx: int, dy: int, short: bool) -> Set<int> {
    if short {
        short_ray_set(s, dx, dy)
    } else {
        ray_set(s, dx, dy)
    }
}

/// Union of the rays (or short rays) from `s` along `dirs`.
pub open spec fn rays_set(s: int, dirs: Seq<(i32, i32)>, short: bool) -> Set<int> {
    Set::new(
        |q: int|
            exists|i: int|
                0 <= i < dirs.len() && #[trigger] any_ray_set(
                    s,
                    dirs[i].0 as int,
                    dirs[i].1 as int,
                    short,
                ).contains(q),
    )
}

/// The relevance mask of a rook on `s`.
pub open spec fn rook_mask_set(s: int) -> Set<int> {
    rays_set(s, rook_dirs(), true)
}

/// The relevance mask of a bishop on `s`.
pub open spec fn bishop_mask_set(s: int) -> Set<int> {
    rays_set(s, bishop_dirs(), true)
}

} // verus!
