//! Reading a position from Forsyth-Edwards notation.
//!
//! The first four space-separated fields are read: piece placement (ranks 8
//! to 1, files a to h), side to move, castling availability and the
//! en-passant target. Anything after them is ignored.
use vstd::prelude::*;
use vstd::string::StringSliceAdditionalSpecFns;
use crate::bitboard::{
    lemma_squares_empty, lemma_squares_or, lemma_squares_single, single, squares, BitBoard,
};
use crate::move_generation::{put_in, Words};
use crate::structs::{Board, CastlingRights, Color};

verus! {

/// The field of a malformed record.
#[derive(Debug, PartialEq, Eq, Structural, Clone, Copy)]
pub enum FenError {
    Placement,
    SideToMove,
    Castling,
    EnPassant,
}

/// Progress through the placement field: the words so far, the next square
/// to fill (counting down from a8, square 63) and the squares used in the
/// current rank.
#[derive(Clone, Copy)]
pub struct Placement {
    pub words: [[BitBoard; 6]; 2],
    pub next: i32,
    pub file: i32,
}

/// Colour index and kind index of a piece letter.
pub open spec fn piece_of_letter(ch: u8) -> Option<(int, int)> {
    if ch == 75 { Some((0, 0)) }        // K
    else if ch == 81 { Some((0, 1)) }   // Q
    else if ch == 82 { Some((0, 2)) }   // R
    else if ch == 66 { Some((0, 3)) }   // B
    else if ch == 78 { Some((0, 4)) }   // N
    else if ch == 80 { Some((0, 5)) }   // P
    else if ch == 107 { Some((1, 0)) }  // k
    else if ch == 113 { Some((1, 1)) }  // q
    else if ch == 114 { Some((1, 2)) }  // r
    else if ch == 98 { Some((1, 3)) }   // b
    else if ch == 110 { Some((1, 4)) }  // n
    else if ch == 112 { Some((1, 5)) }  // p
    else { None }
}

/// One character of the placement field.
pub open spec fn placement_step(st: Placement, ch: u8) -> Option<Placement> {
    match piece_of_letter(ch) {
        Some((c, k)) => if st.file < 8 && st.next >= 0 {
            Some(Placement { words: put_in(st.words, c, k, st.next as int), next: (st.next - 1) as i32, file: (st.file + 1) as i32 })
        } else {
            None
        },
        None => if 49 <= ch <= 56 && st.file + (ch - 48) <= 8 && st.next - (ch - 48) >= -1 {
            Some(Placement { words: st.words, next: (st.next - (ch - 48)) as i32, file: (st.file + (ch - 48)) as i32 })
        } else if ch == 47 && st.file == 8 {
            Some(Placement { words: st.words, next: st.next, file: 0 })
        } else {
            None
        },
    }
}

/// The placement field from byte `i` on, up to the first space: the final
/// state and the index where the field ends.
pub open spec fn placement_from(bytes: Seq<u8>, i: int, st: Placement) -> Option<(Placement, int)>
    decreases bytes.len() - i,
{
    if i < 0 || i >= bytes.len() || bytes[i] == 32 {
        Some((st, i))
    } else {
        match placement_step(st, bytes[i]) {
            Some(next) => placement_from(bytes, i + 1, next),
            None => None,
        }
    }
}

pub open spec fn empty_words() -> Words {
    [[BitBoard(0), BitBoard(0), BitBoard(0), BitBoard(0), BitBoard(0), BitBoard(0)], [
        BitBoard(0),
        BitBoard(0),
        BitBoard(0),
        BitBoard(0),
        BitBoard(0),
        BitBoard(0),
    ]]
}

pub open spec fn no_rights() -> CastlingRights {
    CastlingRights {
        white_queenside: false,
        white_kingside: false,
        black_queenside: false,
        black_kingside: false,
    }
}

/// The castling field from byte `i` on, up to the next space.
pub open spec fn castling_from(bytes: Seq<u8>, i: int, r: CastlingRights) -> Option<(CastlingRights, int)>
    decreases bytes.len() - i,
{
    if i < 0 || i >= bytes.len() || bytes[i] == 32 {
        Some((r, i))
    } else {
        let ch = bytes[i];
        if ch == 75 {
            castling_from(bytes, i + 1, CastlingRights { white_kingside: true, ..r })
        } else if ch == 81 {
            castling_from(bytes, i + 1, CastlingRights { white_queenside: true, ..r })
        } else if ch == 107 {
            castling_from(bytes, i + 1, CastlingRights { black_kingside: true, ..r })
        } else if ch == 113 {
            castling_from(bytes, i + 1, CastlingRights { black_queenside: true, ..r })
        } else if ch == 45 {
            castling_from(bytes, i + 1, r)
        } else {
            None
        }
    }
}

/// Whether byte `i` ends a field.
pub open spec fn field_end(bytes: Seq<u8>, i: int) -> bool {
    i >= bytes.len() || bytes[i] == 32
}

/// The file index (0 for the a-file) of a file letter.
pub open spec fn file_letter(ch: u8) -> Option<int> {
    if 97 <= ch <= 104 {
        Some(ch - 97)
    } else if 65 <= ch <= 72 {
        Some(ch - 65)
    } else {
        None
    }
}

/// The en-passant field at byte `i`: `-`, or a square on the third or sixth rank.
pub open spec fn en_passant_at(bytes: Seq<u8>, i: int) -> Option<Option<u8>> {
    if 0 <= i < bytes.len() && bytes[i] == 45 && field_end(bytes, i + 1) {
        Some(None)
    } else if 0 <= i && i + 1 < bytes.len() && file_letter(bytes[i]) is Some && (bytes[i + 1]
        == 51 || bytes[i + 1] == 54) && field_end(bytes, i + 2) {
        let rank = bytes[i + 1] - 49;
        Some(Some((rank * 8 + 7 - file_letter(bytes[i]).unwrap()) as u8))
    } else {
        None
    }
}

pub open spec fn words_occupy(w: Words, s: int) -> bool {
    exists|c: int, k: int| 0 <= c < 2 && 0 <= k < 6 && #[trigger] squares(w[c][k].0).contains(s)
}

/// The position a record describes, or the first malformed field.
pub open spec fn fen_spec(bytes: Seq<u8>) -> Result<Board, FenError> {
    let start = Placement { words: empty_words(), next: 63, file: 0 };
    match placement_from(bytes, 0, start) {
        None => Err(FenError::Placement),
        Some((p, i)) => if p.next != -1 || p.file != 8 || i >= bytes.len() {
            Err(FenError::Placement)
        } else if !(i + 2 < bytes.len() && (bytes[i + 1] == 119 || bytes[i + 1] == 98) && bytes[i + 2] == 32) {
            Err(FenError::SideToMove)
        } else {
            match castling_from(bytes, i + 3, no_rights()) {
                None => Err(FenError::Castling),
                Some((r, j)) => if j == i + 3 || j >= bytes.len() {
                    Err(FenError::Castling)
                } else {
                    match en_passant_at(bytes, j + 1) {
                        None => Err(FenError::EnPassant),
                        Some(ep) => if ep is Some && words_occupy(p.words, ep.unwrap() as int) {
                            Err(FenError::EnPassant)
                        } else {
                            Ok(Board {
                                bitboards: p.words,
                                castling_rights: r,
                                en_passant: ep,
                                turn: if bytes[i + 1] == 119 { Color::White } else { Color::Black },
                            })
                        },
                    }
                },
            }
        }
    }
}

/// No square at or below `next` is in any word, and the words are disjoint.
pub open spec fn placement_ok(st: Placement) -> bool {
    &&& -1 <= st.next <= 63
    &&& 0 <= st.file <= 8
    &&& forall|c: int, k: int, s: int|
        0 <= c < 2 && 0 <= k < 6 && s <= st.next ==> !#[trigger] squares(st.words[c][k].0).contains(s)
    &&& forall|c1: int, k1: int, c2: int, k2: int, s: int|
        0 <= c1 < 2 && 0 <= k1 < 6 && 0 <= c2 < 2 && 0 <= k2 < 6 && (c1 != c2 || k1 != k2)
            && #[trigger] squares(st.words[c1][k1].0).contains(s) ==> !#[trigger] squares(
            st.words[c2][k2].0,
        ).contains(s)
}

fn piece_letter(ch: u8) -> (r: Option<(usize, usize)>)
    ensures
        match piece_of_letter(ch) {
            Some((c, k)) => r == Some((c as usize, k as usize)) && 0 <= c < 2 && 0 <= k < 6,
            None => r is None,
        },
{
    match ch {
        75 => Some((0, 0)),
        81 => Some((0, 1)),
        82 => Some((0, 2)),
        66 => Some((0, 3)),
        78 => Some((0, 4)),
        80 => Some((0, 5)),
        107 => Some((1, 0)),
        113 => Some((1, 1)),
        114 => Some((1, 2)),
        98 => Some((1, 3)),
        110 => Some((1, 4)),
        112 => Some((1, 5)),
        _ => None,
    }
}

fn put_square(words: &mut [[BitBoard; 6]; 2], c: usize, k: usize, s: u8)
    requires
        c < 2,
        k < 6,
        s < 64,
    ensures
        *final(words) == put_in(*old(words), c as int, k as int, s as int),
{
    let mut row = words[c];
    let mut w = row[k];
    w.set_bit(s);
    row[k] = w;
    words[c] = row;
    assert(words[c as int] =~= crate::move_generation::row_with(old(words)[c as int], k as int, w.0));
    assert(*words =~= put_in(*old(words), c as int, k as int, s as int));
}

fn step_placement(st: &Placement, ch: u8) -> (r: Option<Placement>)
    requires
        placement_ok(*st),
    ensures
        r == placement_step(*st, ch),
        r matches Some(n) ==> placement_ok(n),
{
    match piece_letter(ch) {
        Some((c, k)) => {
            if st.file < 8 && st.next >= 0 {
                let mut words = st.words;
                let s = st.next as u8;
                put_square(&mut words, c, k, s);
                let n = Placement { words, next: st.next - 1, file: st.file + 1 };
                proof {
                    assert forall|c1: int, k1: int|
                        0 <= c1 < 2 && 0 <= k1 < 6 implies #[trigger] squares(n.words[c1][k1].0)
                        == if c1 == c && k1 == k {
                        squares(st.words[c1][k1].0).insert(s as int)
                    } else {
                        squares(st.words[c1][k1].0)
                    } by {
                        if c1 == c && k1 == k {
                            lemma_squares_or(st.words[c1][k1].0, single(s as int));
                            lemma_squares_single(s as int);
                            assert(squares(st.words[c1][k1].0).union(set![s as int]) =~= squares(
                                st.words[c1][k1].0,
                            ).insert(s as int));
                        }
                    }
                }
                Some(n)
            } else {
                None
            }
        },
        None => {
            if 49 <= ch && ch <= 56 && st.file + (ch - 48) as i32 <= 8 && st.next - (ch - 48) as i32 >= -1 {
                Some(Placement { words: st.words, next: st.next - (ch - 48) as i32, file: st.file + (ch - 48) as i32 })
            } else if ch == 47 && st.file == 8 {
                Some(Placement { words: st.words, next: st.next, file: 0 })
            } else {
                None
            }
        },
    }
}

fn empty_placement() -> (r: Placement)
    ensures
        r == (Placement { words: empty_words(), next: 63, file: 0 }),
        placement_ok(r),
{
    let r = Placement { words: [[BitBoard(0); 6]; 2], next: 63, file: 0 };
    proof {
        lemma_squares_empty(0);
        assert(r.words[0] =~= empty_words()[0]);
        assert(r.words[1] =~= empty_words()[1]);
        assert(r.words =~= empty_words());
    }
    r
}

fn parse_placement(bytes: &[u8]) -> (r: Option<(Placement, usize)>)
    ensures
        match placement_from(bytes@, 0, Placement { words: empty_words(), next: 63, file: 0 }) {
            Some((p, i)) => r matches Some((q, j)) && q == p && j == i && placement_ok(q),
            None => r is None,
        },
{
    let start = empty_placement();
    let mut st = start;
    let mut i: usize = 0;
    while i < bytes.len() && bytes[i] != 32
        invariant
            i <= bytes@.len(),
            start == (Placement { words: empty_words(), next: 63, file: 0 }),
            placement_ok(st),
            placement_from(bytes@, i as int, st) == placement_from(bytes@, 0, start),
        decreases bytes@.len() - i,
    {
        match step_placement(&st, bytes[i]) {
            Some(next) => {
                st = next;
            },
            None => {
                assert(placement_from(bytes@, i as int, st) is None);
                return None;
            },
        }
        i = i + 1;
    }
    Some((st, i))
}

fn parse_castling(bytes: &[u8], start: usize) -> (r: Option<(CastlingRights, usize)>)
    ensures
        match castling_from(bytes@, start as int, no_rights()) {
            Some((c, i)) => r matches Some((d, j)) && d == c && j == i,
            None => r is None,
        },
{
    let mut rights = CastlingRights {
        white_queenside: false,
        white_kingside: false,
        black_queenside: false,
        black_kingside: false,
    };
    let mut i: usize = start;
    while i < bytes.len() && bytes[i] != 32
        invariant
            start <= i,
            i <= bytes@.len() || i == start,
            castling_from(bytes@, i as int, rights) == castling_from(bytes@, start as int, no_rights()),
        decreases bytes@.len() - i,
    {
        let ch = bytes[i];
        if ch == 75 {
            rights.white_kingside = true;
        } else if ch == 81 {
            rights.white_queenside = true;
        } else if ch == 107 {
            rights.black_kingside = true;
        } else if ch == 113 {
            rights.black_queenside = true;
        } else if ch != 45 {
            return None;
        }
        i = i + 1;
    }
    Some((rights, i))
}

fn file_index(ch: u8) -> (r: Option<u8>)
    ensures
        match file_letter(ch) {
            Some(f) => r == Some(f as u8) && 0 <= f < 8,
            None => r is None,
        },
{
    if 97 <= ch && ch <= 104 {
        Some(ch - 97)
    } else if 65 <= ch && ch <= 72 {
        Some(ch - 65)
    } else {
        None
    }
}

fn parse_en_passant(bytes: &[u8], i: usize) -> (r: Option<Option<u8>>)
    ensures
        r == en_passant_at(bytes@, i as int),
        r matches Some(Some(s)) ==> (16 <= s < 24 || 40 <= s < 48),
{
    let n = bytes.len();
    if i < n && bytes[i] == 45 && (i + 1 >= n || bytes[i + 1] == 32) {
        return Some(None);
    }
    if i < n && i + 1 < n {
        if let Some(f) = file_index(bytes[i]) {
            let rank_byte = bytes[i + 1];
            if (rank_byte == 51 || rank_byte == 54) && (i + 2 >= n || bytes[i + 2] == 32) {
                let rank = rank_byte - 49;
                return Some(Some(rank * 8 + 7 - f));
            }
        }
    }
    None
}

fn square_taken(words: &[[BitBoard; 6]; 2], s: u8) -> (r: bool)
    requires
        s < 64,
    ensures
        r == words_occupy(*words, s as int),
{
    let mut c: usize = 0;
    while c < 2
        invariant
            c <= 2,
            s < 64,
            forall|c1: int, k: int| 0 <= c1 < c && 0 <= k < 6 ==> !#[trigger] squares(words[c1][k].0).contains(s as int),
        decreases 2 - c,
    {
        let mut k: usize = 0;
        while k < 6
            invariant
                c < 2,
                k <= 6,
                s < 64,
                forall|c1: int, k1: int| 0 <= c1 < c && 0 <= k1 < 6 ==> !#[trigger] squares(words[c1][k1].0).contains(s as int),
                forall|k1: int| 0 <= k1 < k ==> !#[trigger] squares(words[c as int][k1].0).contains(s as int),
            decreases 6 - k,
        {
            if words[c][k].get_bit(s) {
                return true;
            }
            k = k + 1;
        }
        c = c + 1;
    }
    false
}

/// Reads a position from its record; the error names the first malformed field.
pub fn fen_parser(fen: &str) -> (r: Result<Board, FenError>)
    ensures
        r == fen_spec(fen.spec_bytes()),
        r matches Ok(b) ==> b.wf(),
{
    let bytes = fen.as_bytes();
    let n = bytes.len();
    let (placement, i) = match parse_placement(bytes) {
        Some(found) => found,
        None => {
            return Err(FenError::Placement);
        },
    };
    if placement.next != -1 || placement.file != 8 || i >= n {
        return Err(FenError::Placement);
    }
    if !(n - i > 2 && (bytes[i + 1] == 119 || bytes[i + 1] == 98) && bytes[i + 2] == 32) {
        return Err(FenError::SideToMove);
    }
    let (rights, j) = match parse_castling(bytes, i + 3) {
        Some(found) => found,
        None => {
            return Err(FenError::Castling);
        },
    };
    if j == i + 3 || j >= n {
        return Err(FenError::Castling);
    }
    let en_passant = match parse_en_passant(bytes, j + 1) {
        Some(ep) => ep,
        None => {
            return Err(FenError::EnPassant);
        },
    };
    if let Some(s) = en_passant {
        if square_taken(&placement.words, s) {
            return Err(FenError::EnPassant);
        }
    }
    let turn = if bytes[i + 1] == 119 {
        Color::White
    } else {
        Color::Black
    };
    let board = Board { bitboards: placement.words, castling_rights: rights, en_passant, turn };
    proof {
        if let Some(s) = en_passant {
            if board.occupied(s as int) {
                let c: int = if board.occupied_by(0, s as int) { 0 } else { 1 };
                let k = choose|k: int| 0 <= k < 6 && #[trigger] board.pieces(c, k).contains(s as int);
                assert(squares(placement.words[c][k].0).contains(s as int));
            }
        }
    }
    Ok(board)
}

} // verus!
