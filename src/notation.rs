//! Square names and a text picture of the board.
use vstd::prelude::*;
use vstd::string::StringExecFns;
use crate::bitboard::BitBoard;
use crate::structs::Board;

verus! {

/// The letter of the file of square `s` (square 0 is h1).
pub open spec fn file_char(s: int) -> char {
    seq!['H', 'G', 'F', 'E', 'D', 'C', 'B', 'A'][s % 8]
}

/// The digit of the rank of square `s`.
pub open spec fn rank_char(s: int) -> char {
    seq!['1', '2', '3', '4', '5', '6', '7', '8'][s / 8]
}

fn file_name(f: u8) -> (r: &'static str)
    requires
        f < 8,
    ensures
        r@ == seq![seq!['H', 'G', 'F', 'E', 'D', 'C', 'B', 'A'][f as int]],
{
    match f {
        0 => { proof { reveal_strlit("H"); } "H" },
        1 => { proof { reveal_strlit("G"); } "G" },
        2 => { proof { reveal_strlit("F"); } "F" },
        3 => { proof { reveal_strlit("E"); } "E" },
        4 => { proof { reveal_strlit("D"); } "D" },
        5 => { proof { reveal_strlit("C"); } "C" },
        6 => { proof { reveal_strlit("B"); } "B" },
        _ => { proof { reveal_strlit("A"); } "A" },
    }
}

fn rank_name(r: u8) -> (s: &'static str)
    requires
        r < 8,
    ensures
        s@ == seq![seq!['1', '2', '3', '4', '5', '6', '7', '8'][r as int]],
{
    match r {
        0 => { proof { reveal_strlit("1"); } "1" },
        1 => { proof { reveal_strlit("2"); } "2" },
        2 => { proof { reveal_strlit("3"); } "3" },
        3 => { proof { reveal_strlit("4"); } "4" },
        4 => { proof { reveal_strlit("5"); } "5" },
        5 => { proof { reveal_strlit("6"); } "6" },
        6 => { proof { reveal_strlit("7"); } "7" },
        _ => { proof { reveal_strlit("8"); } "8" },
    }
}

/// The name of a square in capitals, such as `E4`.
pub fn human_readable_position(position: u8) -> (r: String)
    requires
        position < 64,
    ensures
        r@ == seq![file_char(position as int), rank_char(position as int)],
{
    let mut name = String::from_str(file_name(position % 8));
    name.append(rank_name(position / 8));
    name
}

/// The square of a name such as `e4` or `E4`.
pub fn square_from_name(name: &[u8]) -> (r: Option<u8>)
    ensures
        r matches Some(s) ==> s < 64 && name@.len() == 2,
        r matches Some(s) ==> file_char(s as int) as u32 == (if name@[0] >= 97 { name@[0] - 32 } else { name@[0] as int })
            && rank_char(s as int) as u32 == name@[1] as u32,
        r is None <==> !(name@.len() == 2 && ((97 <= name@[0] <= 104) || (65 <= name@[0] <= 72)) && 49 <= name@[1] <= 56),
{
    if name.len() != 2 {
        return None;
    }
    let f = name[0];
    let rank = name[1];
    let file_index: u8 = if 97 <= f && f <= 104 {
        f - 97
    } else if 65 <= f && f <= 72 {
        f - 65
    } else {
        return None;
    };
    if rank < 49 || rank > 56 {
        return None;
    }
    let s = (rank - 49) * 8 + (7 - file_index);
    assert(file_char(s as int) as u32 == 72 - (s % 8)) by {
        assert(s % 8 == 7 - file_index);
    }
    Some(s)
}

/// What a square of a printed board shows.
#[derive(Clone, Copy, PartialEq, Eq, Structural, Debug)]
pub enum Cell {
    Occupied,
    Highlighted,
    Clear,
}

/// The cells of a printed board: square 63 first, down to square 0; a set
/// square shows as set, else the highlighted square as highlighted.
pub open spec fn cell_spec(b: BitBoard, highlighted: Option<u8>, i: int) -> Cell {
    let s = 63 - i;
    if b@.contains(s) {
        Cell::Occupied
    } else if highlighted == Some(s as u8) {
        Cell::Highlighted
    } else {
        Cell::Clear
    }
}

impl BitBoard {
    /// The cells of the board in printing order.
    pub fn cells(&self, highlighted: Option<u8>) -> (r: Vec<Cell>)
        ensures
            r@.len() == 64,
            forall|i: int| 0 <= i < 64 ==> #[trigger] r@[i] == cell_spec(*self, highlighted, i),
    {
        let mut out: Vec<Cell> = Vec::new();
        let mut i: u8 = 0;
        while i < 64
            invariant
                i <= 64,
                out@.len() == i,
                forall|j: int| 0 <= j < i ==> #[trigger] out@[j] == cell_spec(*self, highlighted, j),
            decreases 64 - i,
        {
            let s = 63 - i;
            let cell = if self.get_bit(s) {
                Cell::Occupied
            } else if highlighted == Some(s) {
                Cell::Highlighted
            } else {
                Cell::Clear
            };
            out.push(cell);
            i = i + 1;
        }
        out
    }
}

/// The glyph of a piece of colour index `c` and kind index `k`.
pub open spec fn glyph(c: int, k: int) -> Seq<char> {
    if c == 0 {
        seq![seq!['\u{265a}', '\u{265b}', '\u{265c}', '\u{265d}', '\u{265e}', '\u{265f}'][k]]
    } else {
        seq![seq!['\u{2654}', '\u{2655}', '\u{2656}', '\u{2657}', '\u{2658}', '\u{2659}'][k]]
    }
}

fn glyph_of(c: usize, k: usize) -> (r: &'static str)
    requires
        c < 2,
        k < 6,
    ensures
        r@ == glyph(c as int, k as int),
{
    if c == 0 {
        match k {
            0 => { proof { reveal_strlit("\u{265a}"); } "\u{265a}" },
            1 => { proof { reveal_strlit("\u{265b}"); } "\u{265b}" },
            2 => { proof { reveal_strlit("\u{265c}"); } "\u{265c}" },
            3 => { proof { reveal_strlit("\u{265d}"); } "\u{265d}" },
            4 => { proof { reveal_strlit("\u{265e}"); } "\u{265e}" },
            _ => { proof { reveal_strlit("\u{265f}"); } "\u{265f}" },
        }
    } else {
        match k {
            0 => { proof { reveal_strlit("\u{2654}"); } "\u{2654}" },
            1 => { proof { reveal_strlit("\u{2655}"); } "\u{2655}" },
            2 => { proof { reveal_strlit("\u{2656}"); } "\u{2656}" },
            3 => { proof { reveal_strlit("\u{2657}"); } "\u{2657}" },
            4 => { proof { reveal_strlit("\u{2658}"); } "\u{2658}" },
            _ => { proof { reveal_strlit("\u{2659}"); } "\u{2659}" },
        }
    }
}

/// The glyph shown on square `s`: the last of the twelve sets (white before
/// black, kings first) holding it, or nothing.
pub open spec fn square_text(b: Board, s: int, n: int) -> Seq<char>
    decreases n,
{
    if n <= 0 {
        seq![]
    } else {
        let k = (n - 1) / 2;
        let c = (n - 1) % 2;
        if b.pieces(c, k).contains(s) {
            glyph(c, k)
        } else {
            square_text(b, s, n - 1)
        }
    }
}

impl Board {
    /// The glyph on each square, empty for an empty square.
    pub fn get_text_representation(&self) -> (r: Vec<String>)
        ensures
            r@.len() == 64,
            forall|s: int| 0 <= s < 64 ==> (#[trigger] r@[s])@ == square_text(*self, s, 12),
    {
        let mut out: Vec<String> = Vec::new();
        let mut s: u8 = 0;
        while s < 64
            invariant
                s <= 64,
                out@.len() == s,
                forall|j: int| 0 <= j < s ==> (#[trigger] out@[j])@ == square_text(*self, j, 12),
            decreases 64 - s,
        {
            let mut text = String::new();
            let mut n: usize = 0;
            while n < 12
                invariant
                    s < 64,
                    n <= 12,
                    text@ == square_text(*self, s as int, n as int),
                decreases 12 - n,
            {
                let k = n / 2;
                let c = n % 2;
                if self.bitboards[c][k].get_bit(s) {
                    text = String::from_str(glyph_of(c, k));
                }
                n = n + 1;
            }
            out.push(text);
            s = s + 1;
        }
        out
    }
}

} // verus!
