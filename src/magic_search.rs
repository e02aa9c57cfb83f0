//! Searching for magic multipliers: a random trial search for a multiplier
//! under which the blocker sets of a square index distinct slots.
use vstd::prelude::*;
use vstd::wrapping::u64_specs::wrapping_mul;
use crate::bitboard::{lemma_squares_and, squares};
use crate::chess_data::unit_dirs;
use crate::magics::{attack_word, raycast_calculate};

verus! {

/// The slot of blocker set `key` under multiplier `magic`.
pub open spec fn magic_slot(key: u64, magic: u64, shift: u64) -> int {
    (wrapping_mul(key, magic) >> shift) as int
}

/// Relies on `rand::random::<u64>`: a random word from the thread-local
/// generator. Nothing about its value is assumed.
#[verifier::external_body]
fn random_u64() -> (r: u64) {
    rand::random::<u64>()
}

/// Some two of `entries` share a slot, or one has a slot outside the table.
pub open spec fn magic_fails(entries: Seq<(u64, u64)>, magic: u64, shift: u64, size: int) -> bool {
    ||| exists|i: int| 0 <= i < entries.len() && #[trigger] magic_slot(entries[i].0, magic, shift) >= size
    ||| exists|i: int, j: int|
        0 <= i < j < entries.len() && #[trigger] magic_slot(entries[i].0, magic, shift)
            == #[trigger] magic_slot(entries[j].0, magic, shift)
}

/// The table `t` holds every entry's value at its slot.
pub open spec fn table_holds(entries: Seq<(u64, u64)>, magic: u64, shift: u64, t: Seq<u64>) -> bool {
    forall|i: int|
        0 <= i < entries.len() ==> 0 <= #[trigger] magic_slot(entries[i].0, magic, shift) < t.len()
            && t[magic_slot(entries[i].0, magic, shift)] == entries[i].1
}

/// The table of `entries` under `magic`, or `None` when `magic` makes two of
/// them collide.
pub fn try_magic(entries: &Vec<(u64, u64)>, magic: u64, shift: u64, size: usize) -> (r: Option<
    Vec<u64>,
>)
    requires
        shift < 64,
    ensures
        r is None <==> magic_fails(entries@, magic, shift, size as int),
        r matches Some(t) ==> t@.len() == size && table_holds(entries@, magic, shift, t@),
{
    let mut table: Vec<u64> = Vec::new();
    let mut owner: Vec<usize> = Vec::new();
    while table.len() < size
        invariant
            table@.len() == owner@.len(),
            table@.len() <= size,
            forall|s: int| 0 <= s < owner@.len() ==> #[trigger] owner@[s] == usize::MAX,
        decreases size - table@.len(),
    {
        table.push(0);
        owner.push(usize::MAX);
    }
    let mut i: usize = 0;
    while i < entries.len()
        invariant
            shift < 64,
            i <= entries@.len(),
            table@.len() == size,
            owner@.len() == size,
            forall|j: int|
                0 <= j < i ==> 0 <= #[trigger] magic_slot(entries@[j].0, magic, shift) < size
                    && owner@[magic_slot(entries@[j].0, magic, shift)] == j
                    && table@[magic_slot(entries@[j].0, magic, shift)] == entries@[j].1,
            forall|s: int| 0 <= s < size && owner@[s] != usize::MAX ==> #[trigger] owner@[s] < i && magic_slot(entries@[owner@[s] as int].0, magic, shift) == s,
            forall|j: int, k: int| 0 <= j < k < i ==> #[trigger] magic_slot(entries@[j].0, magic, shift) != #[trigger] magic_slot(entries@[k].0, magic, shift),
        decreases entries@.len() - i,
    {
        let (key, value) = entries[i];
        let slot = key.wrapping_mul(magic) >> shift;
        if slot >= size as u64 {
            assert(magic_slot(entries@[i as int].0, magic, shift) >= size);
            return None;
        }
        let s = slot as usize;
        if owner[s] != usize::MAX {
            let ghost j = owner@[s as int] as int;
            assert(magic_slot(entries@[j].0, magic, shift) == magic_slot(entries@[i as int].0, magic, shift));
            assert(0 <= j < i);
            return None;
        }
        table.set(s, value);
        owner.set(s, i);
        i = i + 1;
    }
    assert(!magic_fails(entries@, magic, shift, size as int)) by {
        assert forall|k: int| 0 <= k < entries@.len() implies !(#[trigger] magic_slot(entries@[k].0, magic, shift) >= size) by {}
    }
    Some(table)
}

/// Multipliers for each square's `data`, with their tables; `None` when some
/// square finds no multiplier within `max_attempts` random trials.
pub fn gen_magics(data: &Vec<Vec<(u64, u64)>>, shift: u64, size: usize, max_attempts: u64) -> (r:
    Option<(Vec<u64>, Vec<Vec<u64>>)>)
    requires
        shift < 64,
    ensures
        r matches Some((magics, tables)) ==> magics@.len() == data@.len() && tables@.len()
            == data@.len() && forall|p: int|
            0 <= p < data@.len() ==> !magic_fails(data@[p]@, #[trigger] magics@[p], shift, size as int)
                && tables@[p]@.len() == size && table_holds(data@[p]@, magics@[p], shift, tables@[p]@),
{
    let mut magics: Vec<u64> = Vec::new();
    let mut tables: Vec<Vec<u64>> = Vec::new();
    let mut p: usize = 0;
    while p < data.len()
        invariant
            shift < 64,
            p <= data@.len(),
            magics@.len() == p,
            tables@.len() == p,
            forall|q: int|
                0 <= q < p ==> !magic_fails(data@[q]@, #[trigger] magics@[q], shift, size as int)
                    && tables@[q]@.len() == size && table_holds(data@[q]@, magics@[q], shift, tables@[q]@),
        decreases data@.len() - p,
    {
        let mut attempts: u64 = 0;
        let mut found: Option<(u64, Vec<u64>)> = None;
        while attempts < max_attempts && found.is_none()
            invariant
                shift < 64,
                p < data@.len(),
                found matches Some((m, t)) ==> !magic_fails(data@[p as int]@, m, shift, size as int)
                    && t@.len() == size && table_holds(data@[p as int]@, m, shift, t@),
            decreases max_attempts - attempts,
        {
            let magic = random_u64() & random_u64() & random_u64();
            match try_magic(&data[p], magic, shift, size) {
                Some(t) => {
                    found = Some((magic, t));
                },
                None => {},
            }
            attempts = attempts + 1;
        }
        match found {
            Some((m, t)) => {
                magics.push(m);
                tables.push(t);
            },
            None => {
                return None;
            },
        }
        p = p + 1;
    }
    Some((magics, tables))
}

/// The subset of `mask` that follows `subset` in increasing order (0 after the last).
pub open spec fn next_subset(subset: u64, mask: u64) -> u64 {
    vstd::wrapping::u64_specs::wrapping_sub(subset, mask) & mask
}

/// The subsets of `mask` in increasing order from the empty set, as far as
/// 4096 of them.
pub open spec fn subsets_in_order(entries: Seq<(u64, u64)>, mask: u64) -> bool {
    &&& 1 <= entries.len() <= 4096
    &&& entries[0].0 == 0
    &&& forall|i: int| 0 <= i < entries.len() - 1 ==> #[trigger] entries[i + 1].0 == next_subset(entries[i].0, mask) && entries[i + 1].0 != 0
    &&& entries.len() < 4096 ==> next_subset(entries[entries.len() - 1].0, mask) == 0
}

/// Each subset of the relevance mask of each square (lowest first, as far as
/// 4096 of them), with the attacks along `dirs` for it, clipped to `full`.
pub fn generate_blocker_data(slider_data: [u64; 64], slider_data_full: [u64; 64], dirs: &Vec<(i32, i32)>) -> (r: Vec<Vec<(u64, u64)>>)
    requires
        unit_dirs(dirs@),
    ensures
        r@.len() == 64,
        forall|p: int| 0 <= p < 64 ==> subsets_in_order(#[trigger] r@[p]@, slider_data[p]),
        forall|p: int, i: int|
            0 <= p < 64 && 0 <= i < r@[p]@.len() ==> squares((#[trigger] r@[p]@[i]).0).subset_of(squares(slider_data[p]))
                && r@[p]@[i].1 == slider_data_full[p] & attack_word(p, dirs@, slider_data_full[p] & r@[p]@[i].0),
{
    let mut output: Vec<Vec<(u64, u64)>> = Vec::new();
    let mut position: u8 = 0;
    while position < 64
        invariant
            position <= 64,
            unit_dirs(dirs@),
            output@.len() == position,
            forall|p: int| 0 <= p < position ==> subsets_in_order(#[trigger] output@[p]@, slider_data[p]),
            forall|p: int, i: int|
                0 <= p < position && 0 <= i < output@[p]@.len() ==> squares((#[trigger] output@[p]@[i]).0).subset_of(squares(slider_data[p]))
                    && output@[p]@[i].1 == slider_data_full[p] & attack_word(p, dirs@, slider_data_full[p] & output@[p]@[i].0),
        decreases 64 - position,
    {
        let mask = slider_data[position as usize];
        let full = slider_data_full[position as usize];
        let mut entries: Vec<(u64, u64)> = Vec::new();
        let mut subset: u64 = 0;
        let mut count: usize = 0;
        proof {
            crate::bitboard::lemma_squares_empty(0);
        }
        loop
            invariant_except_break
                count < 4096,
                count > 0 ==> subset != 0,
            invariant
                position < 64,
                unit_dirs(dirs@),
                mask == slider_data[position as int],
                full == slider_data_full[position as int],
                squares(subset).subset_of(squares(mask)),
                count == entries@.len(),
                count == 0 ==> subset == 0,
                count > 0 ==> entries@[0].0 == 0,
                count > 0 ==> subset == next_subset(entries@[count - 1].0, mask),
                forall|i: int| 0 <= i < entries@.len() - 1 ==> #[trigger] entries@[i + 1].0 == next_subset(entries@[i].0, mask) && entries@[i + 1].0 != 0,
                forall|i: int|
                    0 <= i < entries@.len() ==> squares((#[trigger] entries@[i]).0).subset_of(squares(mask))
                        && entries@[i].1 == full & attack_word(position as int, dirs@, full & entries@[i].0),
            ensures
                1 <= entries@.len() <= 4096,
                entries@.len() < 4096 ==> subset == 0,
            decreases 4096 - count,
        {
            let attacks = raycast_calculate(position, full & subset, dirs);
            entries.push((subset, full & attacks));
            let next = subset.wrapping_sub(mask) & mask;
            proof {
                lemma_squares_and(subset.wrapping_sub(mask), mask);
            }
            subset = next;
            count = count + 1;
            if subset == 0 || count == 4096 {
                break;
            }
        }
        output.push(entries);
        position = position + 1;
    }
    output
}

} // verus!
