//! A set of board squares packed into one 64-bit word.
use vstd::prelude::*;
use vstd::std_specs::bits::*;

verus! {

broadcast use axiom_u64_trailing_zeros;

/// Whether square `i` belongs to the square set encoded by `b`.
pub open spec fn has_sq(b: u64, i: int) -> bool {
    0 <= i < 64 && (b >> (i as u64)) & 1u64 == 1u64
}

/// The squares encoded by `b`.
pub open spec fn squares(b: u64) -> Set<int> {
    Set::new(|i: int| has_sq(b, i))
}

/// The single square `i` as a word.
pub open spec fn single(i: int) -> u64 {
    1u64 << (i as u64)
}

/// The lowest square of a non-empty set.
pub open spec fn lowest(b: u64) -> int {
    u64_trailing_zeros(b) as int
}

/// `b` with its lowest square removed.
pub open spec fn without_lowest(b: u64) -> u64 {
    b ^ single(lowest(b))
}

/// The squares of `b`, lowest first.
pub open spec fn order(b: u64) -> Seq<int>
    decreases b,
    via order_decreases
{
    if b == 0 {
        seq![]
    } else {
        seq![lowest(b)] + order(without_lowest(b))
    }
}

#[via_fn]
proof fn order_decreases(b: u64) {
    if b != 0 {
        lemma_lowest(b);
    }
}

/// Number of squares of `b` below `n`.
pub open spec fn count_below(b: u64, n: int) -> nat
    decreases n,
{
    if n <= 0 {
        0
    } else {
        count_below(b, n - 1) + if has_sq(b, n - 1) {
            1nat
        } else {
            0nat
        }
    }
}

/// Number of squares in `b`.
pub open spec fn popcount(b: u64) -> nat {
    count_below(b, 64)
}

proof fn bv_and(a: u64, b: u64, i: u64)
    by (bit_vector)
    requires
        i < 64,
    ensures
        ((a & b) >> i) & 1u64 == 1u64 <==> ((a >> i) & 1u64 == 1u64 && (b >> i) & 1u64 == 1u64),
{
}

proof fn bv_or(a: u64, b: u64, i: u64)
    by (bit_vector)
    requires
        i < 64,
    ensures
        ((a | b) >> i) & 1u64 == 1u64 <==> ((a >> i) & 1u64 == 1u64 || (b >> i) & 1u64 == 1u64),
{
}

proof fn bv_xor(a: u64, b: u64, i: u64)
    by (bit_vector)
    requires
        i < 64,
    ensures
        ((a ^ b) >> i) & 1u64 == 1u64 <==> ((a >> i) & 1u64 == 1u64) != ((b >> i) & 1u64
            == 1u64),
{
}

proof fn bv_xor_zero(a: u64, b: u64)
    by (bit_vector)
    ensures
        (a ^ b == 0u64) == (a == b),
{
}

proof fn bv_not(a: u64, i: u64)
    by (bit_vector)
    requires
        i < 64,
    ensures
        ((!a) >> i) & 1u64 == 1u64 <==> !((a >> i) & 1u64 == 1u64),
{
}

proof fn bv_single(j: u64, i: u64)
    by (bit_vector)
    requires
        i < 64,
        j < 64,
    ensures
        ((1u64 << j) >> i) & 1u64 == 1u64 <==> i == j,
{
}

proof fn bv_zero(i: u64)
    by (bit_vector)
    ensures
        (0u64 >> i) & 1u64 != 1u64,
{
}

proof fn bv_clear_decreases(b: u64, t: u64)
    by (bit_vector)
    requires
        t < 64,
        (b >> t) & 1u64 == 1u64,
    ensures
        b ^ (1u64 << t) < b,
{
}

pub broadcast proof fn lemma_squares_and(a: u64, b: u64)
    ensures
        #[trigger] squares(a & b) == squares(a).intersect(squares(b)),
{
    assert forall|i: int| #[trigger]
        squares(a & b).contains(i) == squares(a).intersect(squares(b)).contains(i) by {
        if 0 <= i < 64 {
            bv_and(a, b, i as u64);
        }
    }
    assert(squares(a & b) =~= squares(a).intersect(squares(b)));
}

pub broadcast proof fn lemma_squares_or(a: u64, b: u64)
    ensures
        #[trigger] squares(a | b) == squares(a).union(squares(b)),
{
    assert forall|i: int| #[trigger]
        squares(a | b).contains(i) == squares(a).union(squares(b)).contains(i) by {
        if 0 <= i < 64 {
            bv_or(a, b, i as u64);
        }
    }
    assert(squares(a | b) =~= squares(a).union(squares(b)));
}

pub broadcast proof fn lemma_squares_not(a: u64)
    ensures
        #[trigger] squares(!a) == Set::new(|i: int| 0 <= i < 64).difference(squares(a)),
{
    assert forall|i: int| #[trigger]
        squares(!a).contains(i) == Set::new(|i: int| 0 <= i < 64).difference(
            squares(a),
        ).contains(i) by {
        if 0 <= i < 64 {
            bv_not(a, i as u64);
        }
    }
    assert(squares(!a) =~= Set::new(|i: int| 0 <= i < 64).difference(squares(a)));
}

pub broadcast proof fn lemma_squares_single(j: int)
    requires
        0 <= j < 64,
    ensures
        #[trigger] squares(single(j)) == set![j],
{
    assert forall|i: int| #[trigger] squares(single(j)).contains(i) == set![j].contains(i) by {
        if 0 <= i < 64 {
            bv_single(j as u64, i as u64);
        }
    }
    assert(squares(single(j)) =~= set![j]);
}

pub broadcast proof fn lemma_squares_xor_single(b: u64, j: int)
    requires
        0 <= j < 64,
    ensures
        #[trigger] squares(b ^ single(j)) == if squares(b).contains(j) {
            squares(b).remove(j)
        } else {
            squares(b).insert(j)
        },
{
    assert forall|i: int| #[trigger]
        squares(b ^ single(j)).contains(i) == (if squares(b).contains(j) {
            squares(b).remove(j)
        } else {
            squares(b).insert(j)
        }).contains(i) by {
        if 0 <= i < 64 {
            bv_xor(b, single(j), i as u64);
            bv_single(j as u64, i as u64);
        }
    }
    assert(squares(b ^ single(j)) =~= if squares(b).contains(j) {
        squares(b).remove(j)
    } else {
        squares(b).insert(j)
    });
}

pub broadcast proof fn lemma_squares_empty(b: u64)
    ensures
        (b == 0) <==> #[trigger] squares(b) == Set::<int>::empty(),
{
    if b == 0 {
        assert forall|i: int| !#[trigger] squares(b).contains(i) by {
            bv_zero(i as u64);
        }
        assert(squares(b) =~= Set::<int>::empty());
    } else {
        assert(squares(b).contains(lowest(b)));
    }
}

/// The lowest square of a non-empty word is in it, and no lower square is.
pub proof fn lemma_lowest(b: u64)
    requires
        b != 0,
    ensures
        0 <= lowest(b) < 64,
        squares(b).contains(lowest(b)),
        forall|j: int| 0 <= j < lowest(b) ==> !#[trigger] squares(b).contains(j),
        squares(without_lowest(b)) == squares(b).remove(lowest(b)),
        without_lowest(b) < b,
{
    let t = lowest(b);
    assert forall|j: int| 0 <= j < t implies !#[trigger] squares(b).contains(j) by {
        assert((b >> (j as u64)) & 1u64 == 0u64);
    }
    lemma_squares_xor_single(b, t);
    bv_clear_decreases(b, t as u64);
}

/// Two words with the same squares are equal.
pub proof fn lemma_squares_ext(a: u64, b: u64)
    requires
        squares(a) == squares(b),
    ensures
        a == b,
{
    if a != b {
        bv_xor_zero(a, b);
        lemma_lowest(a ^ b);
        let t = lowest(a ^ b);
        let u = t as u64;
        assert(has_sq(a ^ b, t));
        assert(((a ^ b) >> u) & 1u64 == 1u64);
        bv_xor(a, b, u);
        assert(has_sq(a, t) != has_sq(b, t));
        assert(squares(a).contains(t) == has_sq(a, t));
        assert(squares(b).contains(t) == has_sq(b, t));
    }
}

/// The word whose squares are `s`.
pub open spec fn word_of(s: Set<int>) -> u64 {
    choose|w: u64| squares(w) == s
}

pub proof fn lemma_word_of(w: u64)
    ensures
        word_of(squares(w)) == w,
{
    let v = word_of(squares(w));
    assert(squares(v) == squares(w));
    lemma_squares_ext(v, w);
}

#[derive(Clone, Copy, Debug, PartialEq, Eq, Structural)]
pub struct BitBoard(pub u64);

impl View for BitBoard {
    type V = Set<int>;

    open spec fn view(&self) -> Set<int> {
        squares(self.0)
    }
}

impl BitBoard {
    pub fn is_empty(&self) -> (r: bool)
        ensures
            r == (self@ == Set::<int>::empty()),
            r == (self.0 == 0),
    {
        proof {
            lemma_squares_empty(self.0);
        }
        self.0 == 0
    }

    pub fn set_bit(&mut self, bit_index: u8)
        requires
            bit_index < 64,
        ensures
            final(self)@ == old(self)@.insert(bit_index as int),
            final(self).0 == old(self).0 | single(bit_index as int),
    {
        proof {
            lemma_squares_or(self.0, single(bit_index as int));
            lemma_squares_single(bit_index as int);
        }
        self.0 = self.0 | (1u64 << (bit_index as u64));
        proof {
            assert(squares(self.0) =~= old(self)@.insert(bit_index as int));
        }
    }

    pub fn clear_bit(&mut self, bit_index: u8)
        requires
            bit_index < 64,
        ensures
            final(self)@ == old(self)@.remove(bit_index as int),
            final(self).0 == old(self).0 & !single(bit_index as int),
    {
        proof {
            lemma_squares_and(self.0, !single(bit_index as int));
            lemma_squares_not(single(bit_index as int));
            lemma_squares_single(bit_index as int);
        }
        self.0 = self.0 & !(1u64 << (bit_index as u64));
        proof {
            assert(squares(self.0) =~= old(self)@.remove(bit_index as int));
        }
    }

    pub fn get_bit(&self, bit_index: u8) -> (r: bool)
        requires
            bit_index < 64,
        ensures
            r == self@.contains(bit_index as int),
    {
        proof {
            lemma_squares_and(self.0, single(bit_index as int));
            lemma_squares_single(bit_index as int);
            lemma_squares_empty(self.0 & single(bit_index as int));
            let m = self.0 & single(bit_index as int);
            if !self@.contains(bit_index as int) {
                assert(squares(m) =~= Set::<int>::empty());
            } else {
                assert(squares(m).contains(bit_index as int));
            }
        }
        self.0 & (1u64 << (bit_index as u64)) != 0
    }

    pub fn and(self, other: BitBoard) -> (r: BitBoard)
        ensures
            r@ == self@.intersect(other@),
            r.0 == self.0 & other.0,
    {
        proof {
            lemma_squares_and(self.0, other.0);
        }
        BitBoard(self.0 & other.0)
    }

    pub fn or(self, other: BitBoard) -> (r: BitBoard)
        ensures
            r@ == self@.union(other@),
            r.0 == self.0 | other.0,
    {
        proof {
            lemma_squares_or(self.0, other.0);
        }
        BitBoard(self.0 | other.0)
    }

    /// The squares of `self` that are not in `other`.
    pub fn without(self, other: BitBoard) -> (r: BitBoard)
        ensures
            r@ == self@.difference(other@),
            r.0 == self.0 & !other.0,
    {
        proof {
            lemma_squares_and(self.0, !other.0);
            lemma_squares_not(other.0);
            assert(squares(self.0 & !other.0) =~= self@.difference(other@));
        }
        BitBoard(self.0 & !other.0)
    }

    pub fn not(self) -> (r: BitBoard)
        ensures
            r@ == Set::new(|i: int| 0 <= i < 64).difference(self@),
            r.0 == !self.0,
    {
        proof {
            lemma_squares_not(self.0);
        }
        BitBoard(!self.0)
    }

    /// Removes the lowest square and returns it.
    pub fn get_index_and_pop(&mut self) -> (r: u8)
        requires
            old(self).0 != 0,
        ensures
            r as int == lowest(old(self).0),
            r < 64,
            old(self)@.contains(r as int),
            forall|j: int| 0 <= j < r ==> !#[trigger] old(self)@.contains(j),
            final(self).0 == without_lowest(old(self).0),
            final(self)@ == old(self)@.remove(r as int),
            final(self).0 < old(self).0,
    {
        proof {
            lemma_lowest(self.0);
        }
        let t = self.0.trailing_zeros();
        self.0 = self.0 ^ (1u64 << t);
        t as u8
    }

    /// Number of squares on the board.
    pub fn popcnt(&self) -> (r: u32)
        ensures
            r == popcount(self.0),
            r <= 64,
    {
        let mut count: u32 = 0;
        let mut i: u64 = 0;
        while i < 64
            invariant
                i <= 64,
                count == count_below(self.0, i as int),
                count <= i,
            decreases 64 - i,
        {
            if (self.0 >> i) & 1u64 == 1u64 {
                count = count + 1;
            }
            i = i + 1;
        }
        count
    }
}

} // verus!
