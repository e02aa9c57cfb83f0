//! Slider attacks: ray casting, and the magic-indexed tables built from it.
use vstd::prelude::*;
use crate::bitboard::{
    lemma_squares_empty, lemma_word_of, squares, word_of, BitBoard,
};
use crate::chess_data::{unit_dir, unit_dirs};
use crate::geometry::{file_of, is_step, on_board, rank_of, sq_at};

verus! {

/// Whether the `j`-th square from `s` along `(dx, dy)` is on the board and in `occ`.
pub open spec fn blocked_at(s: int, dx: int, dy: int, j: int, occ: Set<int>) -> bool {
    on_board(file_of(s) + j * dx, rank_of(s) + j * dy) && occ.contains(
        sq_at(file_of(s) + j * dx, rank_of(s) + j * dy),
    )
}

/// The squares a slider on `s` reaches along `(dx, dy)` when the squares of
/// `occ` are occupied: each ray stops at, and includes, its first blocker.
pub open spec fn slide_ray(s: int, dx: int, dy: int, occ: Set<int>) -> Set<int> {
    Set::new(
        |q: int|
            exists|k: int|
                1 <= k < 8 && #[trigger] is_step(s, k * dx, k * dy, q) && forall|j: int|
                    1 <= j < k ==> !#[trigger] blocked_at(s, dx, dy, j, occ),
    )
}

/// The union of `slide_ray` along each of `dirs`.
pub open spec fn slide_set(s: int, dirs: Seq<(i32, i32)>, occ: Set<int>) -> Set<int> {
    Set::new(
        |q: int|
            exists|i: int|
                0 <= i < dirs.len() && #[trigger] slide_ray(
                    s,
                    dirs[i].0 as int,
                    dirs[i].1 as int,
                    occ,
                ).contains(q),
    )
}

/// The attack word of a slider moving along `dirs` from `s` with blockers `blockers`.
pub open spec fn attack_word(s: int, dirs: Seq<(i32, i32)>, blockers: u64) -> u64 {
    word_of(slide_set(s, dirs, squares(blockers)))
}

spec fn slide_upto(s: int, dx: int, dy: int, occ: Set<int>, n: int) -> Set<int> {
    Set::new(
        |q: int|
            exists|k: int|
                1 <= k < n && #[trigger] is_step(s, k * dx, k * dy, q) && forall|j: int|
                    1 <= j < k ==> !#[trigger] blocked_at(s, dx, dy, j, occ),
    )
}

/// The squares reached from `position` along `(dx, dy)`, stopping at the first
/// square of `occupancy`.
fn cast_ray(position: u8, dx: i32, dy: i32, occupancy: u64) -> (r: BitBoard)
    requires
        position < 64,
        unit_dir(dx as int, dy as int),
    ensures
        r@ == slide_ray(position as int, dx as int, dy as int, squares(occupancy)),
{
    let ghost p = position as int;
    let ghost occ = squares(occupancy);
    let x = (position % 8) as i32;
    let y = (position / 8) as i32;
    let occupied = BitBoard(occupancy);
    let mut r = BitBoard(0);
    let mut stopped = false;
    proof {
        lemma_squares_empty(0);
        assert(slide_upto(p, dx as int, dy as int, occ, 1) =~= Set::<int>::empty());
    }
    let mut k: i32 = 1;
    while k < 8
        invariant
            1 <= k <= 8,
            position < 64,
            p == position as int,
            occ == squares(occupancy),
            occupied@ == occ,
            x == file_of(p),
            y == rank_of(p),
            unit_dir(dx as int, dy as int),
            r@ == slide_upto(p, dx as int, dy as int, occ, k as int),
            stopped == exists|j: int| 1 <= j < k && #[trigger] blocked_at(p, dx as int, dy as int, j, occ),
        decreases 8 - k,
    {
        assert(-8 <= k * dx <= 8 && -8 <= k * dy <= 8) by (nonlinear_arith)
            requires
                1 <= k < 8,
                -1 <= dx <= 1,
                -1 <= dy <= 1,
        ;
        let nx = x + k * dx;
        let ny = y + k * dy;
        let here = 0 <= nx && nx < 8 && 0 <= ny && ny < 8;
        let ghost before = r@;
        let ghost was_stopped = stopped;
        let ghost n = k as int;
        if here && !stopped {
            let q = (ny * 8 + nx) as u8;
            r.set_bit(q);
            if occupied.get_bit(q) {
                stopped = true;
                assert(blocked_at(p, dx as int, dy as int, n, occ));
            }
        }
        proof {
            assert forall|q: int| #[trigger]
                slide_upto(p, dx as int, dy as int, occ, n + 1).contains(q) == r@.contains(q) by {
                if slide_upto(p, dx as int, dy as int, occ, n + 1).contains(q) {
                    let j = choose|j: int|
                        1 <= j < n + 1 && #[trigger] is_step(p, j * dx, j * dy, q) && forall|i: int|
                            1 <= i < j ==> !#[trigger] blocked_at(p, dx as int, dy as int, i, occ);
                    if j < n {
                        assert(before.contains(q));
                    } else {
                        if was_stopped {
                            let i = choose|i: int| 1 <= i < n && #[trigger] blocked_at(p, dx as int, dy as int, i, occ);
                            assert(!blocked_at(p, dx as int, dy as int, i, occ));
                        }
                    }
                }
                if before.contains(q) {
                    let j = choose|j: int|
                        1 <= j < n && #[trigger] is_step(p, j * dx, j * dy, q) && forall|i: int|
                            1 <= i < j ==> !#[trigger] blocked_at(p, dx as int, dy as int, i, occ);
                    assert(1 <= j < n + 1);
                }
                if here && !was_stopped && q == sq_at(nx as int, ny as int) {
                    assert(is_step(p, n * dx, n * dy, q));
                    assert forall|i: int| 1 <= i < n implies !#[trigger] blocked_at(
                        p,
                        dx as int,
                        dy as int,
                        i,
                        occ,
                    ) by {}
                }
            }
            assert(slide_upto(p, dx as int, dy as int, occ, n + 1) =~= r@);
            if !here || was_stopped {
                assert(stopped == exists|j: int|
                    1 <= j < n + 1 && #[trigger] blocked_at(p, dx as int, dy as int, j, occ)) by {
                    if exists|j: int| 1 <= j < n + 1 && #[trigger] blocked_at(p, dx as int, dy as int, j, occ) {
                        let j = choose|j: int| 1 <= j < n + 1 && #[trigger] blocked_at(p, dx as int, dy as int, j, occ);
                        if j == n {
                            assert(!here ==> !blocked_at(p, dx as int, dy as int, j, occ));
                        }
                    }
                }
            }
        }
        k = k + 1;
    }
    proof {
        assert(slide_upto(p, dx as int, dy as int, occ, 8) =~= slide_ray(
            p,
            dx as int,
            dy as int,
            occ,
        ));
    }
    r
}

/// Attacks of a slider on `position` moving along `dirs`, ray-cast against
/// `occupancy`.
pub fn raycast_calculate(position: u8, occupancy: u64, dirs: &Vec<(i32, i32)>) -> (r: u64)
    requires
        position < 64,
        unit_dirs(dirs@),
    ensures
        squares(r) == slide_set(position as int, dirs@, squares(occupancy)),
        r == attack_word(position as int, dirs@, occupancy),
{
    let ghost p = position as int;
    let ghost occ = squares(occupancy);
    let mut r = BitBoard(0);
    proof {
        lemma_squares_empty(0);
        assert(slide_set(p, dirs@.take(0), occ) =~= Set::<int>::empty());
    }
    let mut i: usize = 0;
    while i < dirs.len()
        invariant
            position < 64,
            p == position as int,
            occ == squares(occupancy),
            unit_dirs(dirs@),
            i <= dirs@.len(),
            r@ == slide_set(p, dirs@.take(i as int), occ),
        decreases dirs@.len() - i,
    {
        let (dx, dy) = dirs[i];
        assert(unit_dir(dirs@[i as int].0 as int, dirs@[i as int].1 as int));
        let ray = cast_ray(position, dx, dy, occupancy);
        let ghost before = r@;
        r = r.or(ray);
        proof {
            let s1 = dirs@.take(i as int);
            let s2 = dirs@.take(i as int + 1);
            assert forall|q: int| #[trigger] slide_set(p, s2, occ).contains(q) == r@.contains(q) by {
                if slide_set(p, s2, occ).contains(q) {
                    let j = choose|j: int|
                        0 <= j < s2.len() && #[trigger] slide_ray(
                            p,
                            s2[j].0 as int,
                            s2[j].1 as int,
                            occ,
                        ).contains(q);
                    if j < i {
                        assert(s1[j] == s2[j]);
                        assert(slide_ray(p, s1[j].0 as int, s1[j].1 as int, occ).contains(q));
                    }
                }
                if before.contains(q) {
                    let j = choose|j: int|
                        0 <= j < s1.len() && #[trigger] slide_ray(
                            p,
                            s1[j].0 as int,
                            s1[j].1 as int,
                            occ,
                        ).contains(q);
                    assert(s1[j] == s2[j]);
                    assert(slide_ray(p, s2[j].0 as int, s2[j].1 as int, occ).contains(q));
                }
                if ray@.contains(q) {
                    assert(s2[i as int] == dirs@[i as int]);
                    assert(slide_ray(p, s2[i as int].0 as int, s2[i as int].1 as int, occ).contains(q));
                }
            }
            assert(slide_set(p, s2, occ) =~= r@);
        }
        i = i + 1;
    }
    proof {
        assert(dirs@.take(dirs@.len() as int) =~= dirs@);
        lemma_word_of(r.0);
    }
    r.0
}

/// Right shift of a rook's magic product: twelve index bits.
pub const MAGIC_SHIFT_ROOK: u64 = 52;

/// Right shift of a bishop's magic product: thirteen index bits.
pub const MAGIC_SHIFT_BISHOP: u64 = 51;

/// Multipliers, one per square, under which the rook's blocker subsets index
/// distinct slots.
pub const MAGICS_ROOK: [u64; 64] = [
    0x4080004002201882, 0x2040004110202880, 0x8820000840422005, 0x00080200a4100028,
    0x1028182010200204, 0x1080020024000080, 0x0d00060008a24500, 0x00800cb0c1000080,
    0x0000500180800070, 0x82184c0110404000, 0x0088a00400812000, 0x1005040040800c00,
    0x4802201600204001, 0x0000082901821c00, 0x0710010241124808, 0x4400500484600100,
    0x0a40008000112a92, 0x100c820048012188, 0x00009020080c8008, 0xa000025200224040,
    0x000121010a600880, 0x4410010004700802, 0x86100c8101650081, 0x0020101000892440,
    0x8040002080008011, 0x800e02300402080a, 0x3340c60212008840, 0x0001002810000600,
    0xc004004028000240, 0x80502a01a0200910, 0x4048118440011182, 0x0280200120124010,
    0x4000400281800010, 0x0910902102010201, 0x04a0840124100080, 0x8800241000400800,
    0x0204080222200714, 0x0000108001200409, 0x0218220003602011, 0x1000200122c01081,
    0x0104010840040800, 0x001c028210681002, 0x83a0020050209000, 0x4004210008800800,
    0x0000242001043012, 0x200020040400a041, 0x10c50000842c0804, 0x0004040050a20001,
    0x400080780042c048, 0x8000100a00405420, 0x0027000804109180, 0x0288130700200300,
    0x8a00082400400428, 0x4000010280402a10, 0x8225024682000300, 0x000440130400a008,
    0x00a0550042008062, 0x0200810410263212, 0x10802a3020010041, 0x0002014410204802,
    0x2800120041082002, 0x0412080400028225, 0x0200009043060101, 0x1400040041002082,
];

/// Multipliers, one per square, under which the bishop's blocker subsets index
/// distinct slots.
pub const MAGICS_BISHOP: [u64; 64] = [
    0x0810883084610202, 0x010005800c050000, 0xa0040c00102200a0, 0x801000a624000050,
    0x0000a11000090008, 0x7014100080202480, 0x2224208c08002040, 0x1800004004000980,
    0x88c0044004092828, 0x0044080288890100, 0x0442100004091201, 0x88001482c0020004,
    0x0102008104100440, 0x00010002000a0220, 0x1130000200800582, 0x8000110c24844030,
    0x6008002800300002, 0x0000a00100080840, 0x1004880040100084, 0x0400300100050001,
    0x022c000200101000, 0x9803000a08020060, 0x0428060080081480, 0x4010008204000820,
    0x000250000b080040, 0x00e41004c8010011, 0x8100080182095020, 0x1200401002020200,
    0x1010020004200500, 0x0002480401200218, 0x0824000800486804, 0x04000102e2041004,
    0x8000c00800100006, 0x0004010020110041, 0x6000008800020122, 0x8000084020081001,
    0x0210008082102021, 0x000c020120480d00, 0x00040400020412b0, 0x0201202490003001,
    0x02ab018200200500, 0x0021005080068800, 0x4080440020080086, 0x0880220080d00101,
    0x0020100042008141, 0x460c002248440801, 0x00001600b2419040, 0x0200221c02100001,
    0x800010800b214000, 0x0800840028080409, 0x0a00008001080001, 0x2200406086890006,
    0x80002102c0808802, 0x40080a0a80620001, 0x000c6a0044000405, 0x0810002a00a08000,
    0x02484c000284c220, 0x2200014084610014, 0x2000000202800108, 0x0004020008020520,
    0x1400000202081707, 0xa800c90203c44002, 0x0820092000210010, 0x0580100209234900,
];

/// Attack sets of one slider kind, indexed by a hash of the blockers.
///
/// Each slot holds a blocker set and the attacks for it; a lookup whose
/// blockers differ from the slot's key casts the rays instead.
pub struct MagicTable {
    pub magics: Vec<u64>,
    pub masks: Vec<u64>,
    pub shift: u64,
    pub entries: Vec<Vec<(u64, u64)>>,
    pub dirs: Vec<(i32, i32)>,
}

impl MagicTable {
    pub open spec fn wf(&self) -> bool {
        &&& self.magics@.len() == 64
        &&& self.masks@.len() == 64
        &&& self.entries@.len() == 64
        &&& unit_dirs(self.dirs@)
        &&& self.shift < 64
        &&& forall|s: int, i: int|
            0 <= s < 64 && 0 <= i < self.entries@[s]@.len() ==> (#[trigger] self.entries@[s]@[i]).1
                == attack_word(s, self.dirs@, self.entries@[s]@[i].0)
    }

    /// Attacks from `position` for the occupancy `occupancy`, through the
    /// square's relevance mask.
    pub fn lookup(&self, position: u8, occupancy: u64) -> (r: u64)
        requires
            self.wf(),
            position < 64,
        ensures
            r == attack_word(position as int, self.dirs@, occupancy & self.masks@[position as int]),
    {
        let p = position as usize;
        let blockers = occupancy & self.masks[p];
        let index = blockers.wrapping_mul(self.magics[p]) >> self.shift;
        let slots = &self.entries[p];
        if index < slots.len() as u64 {
            let (key, attacks) = slots[index as usize];
            if key == blockers {
                return attacks;
            }
        }
        raycast_calculate(position, blockers, &self.dirs)
    }
}

/// The slots of one square: every subset of `mask` (as far as `size` slots
/// allow) at its magic index, with its ray-cast attacks.
fn build_square(
    position: u8,
    mask: u64,
    magic: u64,
    shift: u64,
    size: usize,
    dirs: &Vec<(i32, i32)>,
) -> (r: Vec<(u64, u64)>)
    requires
        position < 64,
        unit_dirs(dirs@),
        size > 0,
        shift < 64,
    ensures
        r@.len() == size,
        forall|i: int|
            0 <= i < r@.len() ==> (#[trigger] r@[i]).1 == attack_word(position as int, dirs@, r@[i].0),
{
    let empty_attacks = raycast_calculate(position, 0, dirs);
    let mut slots: Vec<(u64, u64)> = Vec::new();
    while slots.len() < size
        invariant
            slots@.len() <= size,
            empty_attacks == attack_word(position as int, dirs@, 0),
            forall|i: int|
                0 <= i < slots@.len() ==> (#[trigger] slots@[i]).1 == attack_word(
                    position as int,
                    dirs@,
                    slots@[i].0,
                ),
        decreases size - slots@.len(),
    {
        slots.push((0, empty_attacks));
    }
    let mut subset: u64 = 0;
    let mut count: usize = 0;
    while count < size
        invariant
            position < 64,
            unit_dirs(dirs@),
            shift < 64,
            slots@.len() == size,
            forall|i: int|
                0 <= i < slots@.len() ==> (#[trigger] slots@[i]).1 == attack_word(
                    position as int,
                    dirs@,
                    slots@[i].0,
                ),
        decreases size - count,
    {
        let attacks = raycast_calculate(position, subset, dirs);
        let index = subset.wrapping_mul(magic) >> shift;
        if index < size as u64 {
            slots.set(index as usize, (subset, attacks));
        }
        subset = subset.wrapping_sub(mask) & mask;
        count = count + 1;
        if subset == 0 {
            break;
        }
    }
    slots
}

impl MagicTable {
    /// Builds the table of a slider moving along `dirs`, with relevance masks
    /// `masks` and the multipliers `magics`.
    pub fn build(
        magics: &[u64; 64],
        masks: &[BitBoard; 64],
        shift: u64,
        size: usize,
        dirs: Vec<(i32, i32)>,
    ) -> (r: MagicTable)
        requires
            unit_dirs(dirs@),
            shift < 64,
            size > 0,
        ensures
            r.wf(),
            r.dirs@ == dirs@,
            r.shift == shift,
            forall|s: int| 0 <= s < 64 ==> #[trigger] r.masks@[s] == masks[s].0,
            forall|s: int| 0 <= s < 64 ==> #[trigger] r.magics@[s] == magics[s],
    {
        let mut entries: Vec<Vec<(u64, u64)>> = Vec::new();
        let mut mask_list: Vec<u64> = Vec::new();
        let mut magic_list: Vec<u64> = Vec::new();
        let mut position: u8 = 0;
        while position < 64
            invariant
                position <= 64,
                unit_dirs(dirs@),
                size > 0,
                shift < 64,
                entries@.len() == position,
                mask_list@.len() == position,
                magic_list@.len() == position,
                forall|s: int| 0 <= s < position ==> #[trigger] mask_list@[s] == masks[s].0,
                forall|s: int| 0 <= s < position ==> #[trigger] magic_list@[s] == magics[s],
                forall|s: int, i: int|
                    0 <= s < position && 0 <= i < entries@[s]@.len() ==> (#[trigger] entries@[s]@[i]).1
                        == attack_word(s, dirs@, entries@[s]@[i].0),
            decreases 64 - position,
        {
            let p = position as usize;
            let slots = build_square(position, masks[p].0, magics[p], shift, size, &dirs);
            entries.push(slots);
            mask_list.push(masks[p].0);
            magic_list.push(magics[p]);
            position = position + 1;
        }
        MagicTable { magics: magic_list, masks: mask_list, shift, entries, dirs }
    }
}

} // verus!
