//! Make-move, attack masks, check detection and the legal-move generator.
use vstd::prelude::*;
use crate::bitboard::{lowest, order, single, squares, BitBoard};
use crate::chess_data::ChessTables;
use crate::magics::attack_word;
use crate::geometry::{bishop_dirs, rook_dirs};
use crate::structs::{
    color_index, destination_of, origin_of, piece_of_index, type_of, Board, BoardState,
    CastlingRights, ChessMove, Color, MoveType, Pieces, BLACK_PAWN_CAPTURES,
    BLACK_PAWN_LONG_MOVES, BLACK_PAWN_MOVES, KING_MOVES, KNIGHT_MOVES, WHITE_PAWN_CAPTURES,
    WHITE_PAWN_LONG_MOVES, WHITE_PAWN_MOVES, decodable, pack_spec,
};

verus! {

pub type Words = [[BitBoard; 6]; 2];

/// `r` with word `k` replaced by `w`.
pub open spec fn row_with(r: [BitBoard; 6], k: int, w: u64) -> [BitBoard; 6] {
    [
        if k == 0 { BitBoard(w) } else { r[0] },
        if k == 1 { BitBoard(w) } else { r[1] },
        if k == 2 { BitBoard(w) } else { r[2] },
        if k == 3 { BitBoard(w) } else { r[3] },
        if k == 4 { BitBoard(w) } else { r[4] },
        if k == 5 { BitBoard(w) } else { r[5] },
    ]
}

/// `b` with the word of colour `c` and kind `k` replaced by `w`.
pub open spec fn with_word(b: Words, c: int, k: int, w: u64) -> Words {
    [
        if c == 0 { row_with(b[0], k, w) } else { b[0] },
        if c == 1 { row_with(b[1], k, w) } else { b[1] },
    ]
}

/// `b` with square `s` removed from the word of `c`, `k`.
pub open spec fn clear_in(b: Words, c: int, k: int, s: int) -> Words {
    with_word(b, c, k, b[c][k].0 & !single(s))
}

/// `b` with square `s` added to the word of `c`, `k`.
pub open spec fn put_in(b: Words, c: int, k: int, s: int) -> Words {
    with_word(b, c, k, b[c][k].0 | single(s))
}

/// `b` with square `s` removed from every word of colour `c`.
pub open spec fn clear_all(b: Words, c: int, s: int) -> Words {
    clear_in(
        clear_in(
            clear_in(clear_in(clear_in(clear_in(b, c, 0, s), c, 1, s), c, 2, s), c, 3, s),
            c,
            4,
            s,
        ),
        c,
        5,
        s,
    )
}

/// Index of the first kind of colour `c` on square `s`, or 6 when there is none.
pub open spec fn kind_index_at(b: Board, c: int, s: int) -> int {
    if squares(b.word(c, 0)).contains(s) {
        0
    } else if squares(b.word(c, 1)).contains(s) {
        1
    } else if squares(b.word(c, 2)).contains(s) {
        2
    } else if squares(b.word(c, 3)).contains(s) {
        3
    } else if squares(b.word(c, 4)).contains(s) {
        4
    } else if squares(b.word(c, 5)).contains(s) {
        5
    } else {
        6
    }
}

/// The piece words after the mover's piece leaves `o` and arrives on `d` by a
/// move of type `t`.
pub open spec fn moved_words(b: Board, o: int, d: int, t: MoveType) -> Words {
    let c = color_index(b.turn);
    let e = 1 - c;
    let k = kind_index_at(b, c, o);
    let w0 = if k < 6 { clear_in(b.bitboards, c, k, o) } else { b.bitboards };
    match t {
        MoveType::QuietMove | MoveType::DoublePawnPush => if k < 6 { put_in(w0, c, k, d) } else { w0 },
        MoveType::KingCastle => {
            let w1 = if k < 6 { put_in(w0, c, k, d) } else { w0 };
            if 1 <= d <= 62 { put_in(clear_in(w1, c, 2, d - 1), c, 2, d + 1) } else { w1 }
        },
        MoveType::QueenCastle => {
            let w1 = if k < 6 { put_in(w0, c, k, d) } else { w0 };
            if 1 <= d <= 61 { put_in(clear_in(w1, c, 2, d + 2), c, 2, d - 1) } else { w1 }
        },
        MoveType::Capture => {
            let w1 = clear_all(w0, e, d);
            if k < 6 { put_in(w1, c, k, d) } else { w1 }
        },
        MoveType::EnPassant => {
            let behind = if c == 0 { d - 8 } else { d + 8 };
            let w1 = if 0 <= behind < 64 { clear_all(w0, e, behind) } else { w0 };
            if k < 6 { put_in(w1, c, k, d) } else { w1 }
        },
        MoveType::QueenPromotion => put_in(clear_all(w0, e, d), c, 1, d),
        MoveType::RookPromotion => put_in(clear_all(w0, e, d), c, 2, d),
        MoveType::BishopPromotion => put_in(clear_all(w0, e, d), c, 3, d),
        MoveType::KnightPromotion => put_in(clear_all(w0, e, d), c, 4, d),
    }
}

/// The en-passant target after a move: the square behind a double-pushed pawn.
pub open spec fn en_passant_after(b: Board, o: int, t: MoveType) -> Option<u8> {
    if t == MoveType::DoublePawnPush {
        if b.turn == Color::White {
            Some((o + 8) as u8)
        } else if o >= 8 {
            Some((o - 8) as u8)
        } else {
            None
        }
    } else {
        None
    }
}

/// Castling rights after a move from `o` to `d`: a king move drops both of
/// its side's rights, and a move from or to a corner drops that corner's right.
pub open spec fn rights_after(b: Board, o: int, d: int) -> CastlingRights {
    let r = b.castling_rights;
    let king = kind_index_at(b, color_index(b.turn), o) == 0;
    let white_king = king && b.turn == Color::White;
    let black_king = king && b.turn == Color::Black;
    CastlingRights {
        white_kingside: r.white_kingside && !white_king && o != 0 && d != 0,
        white_queenside: r.white_queenside && !white_king && o != 7 && d != 7,
        black_kingside: r.black_kingside && !black_king && o != 56 && d != 56,
        black_queenside: r.black_queenside && !black_king && o != 63 && d != 63,
    }
}

/// The position after the packed move `m`.
pub open spec fn make_spec(b: Board, m: u16) -> Board {
    let o = origin_of(m);
    let d = destination_of(m);
    let t = type_of(m);
    Board {
        bitboards: moved_words(b, o, d, t),
        castling_rights: rights_after(b, o, d),
        en_passant: en_passant_after(b, o, t),
        turn: if b.turn == Color::White { Color::Black } else { Color::White },
    }
}

impl Board {
    fn get_white_occupancy(&self) -> (r: BitBoard)
        ensures
            r.0 == self.occupancy_word(0),
    {
        let b = self.bitboards[0];
        BitBoard(b[0].0 | b[1].0 | b[2].0 | b[3].0 | b[4].0 | b[5].0)
    }

    fn get_black_occupancy(&self) -> (r: BitBoard)
        ensures
            r.0 == self.occupancy_word(1),
    {
        let b = self.bitboards[1];
        BitBoard(b[0].0 | b[1].0 | b[2].0 | b[3].0 | b[4].0 | b[5].0)
    }

    /// The occupancy of `color`.
    pub fn occupancy_of(&self, color: Color) -> (r: BitBoard)
        ensures
            r.0 == self.occupancy_word(color_index(color)),
    {
        match color {
            Color::White => self.get_white_occupancy(),
            Color::Black => self.get_black_occupancy(),
        }
    }

    fn clear_word_bit(&mut self, c: usize, k: usize, s: u8)
        requires
            c < 2,
            k < 6,
            s < 64,
        ensures
            final(self).bitboards == clear_in(old(self).bitboards, c as int, k as int, s as int),
            final(self).castling_rights == old(self).castling_rights,
            final(self).en_passant == old(self).en_passant,
            final(self).turn == old(self).turn,
    {
        let mut row = self.bitboards[c];
        let mut w = row[k];
        w.clear_bit(s);
        row[k] = w;
        self.bitboards[c] = row;
        assert(self.bitboards[c as int] =~= row_with(old(self).bitboards[c as int], k as int, w.0));
        assert(self.bitboards =~= clear_in(old(self).bitboards, c as int, k as int, s as int));
    }

    fn set_word_bit(&mut self, c: usize, k: usize, s: u8)
        requires
            c < 2,
            k < 6,
            s < 64,
        ensures
            final(self).bitboards == put_in(old(self).bitboards, c as int, k as int, s as int),
            final(self).castling_rights == old(self).castling_rights,
            final(self).en_passant == old(self).en_passant,
            final(self).turn == old(self).turn,
    {
        let mut row = self.bitboards[c];
        let mut w = row[k];
        w.set_bit(s);
        row[k] = w;
        self.bitboards[c] = row;
        assert(self.bitboards[c as int] =~= row_with(old(self).bitboards[c as int], k as int, w.0));
        assert(self.bitboards =~= put_in(old(self).bitboards, c as int, k as int, s as int));
    }

    fn clear_square(&mut self, position: u8, color: Color)
        requires
            position < 64,
        ensures
            final(self).bitboards == clear_all(
                old(self).bitboards,
                color_index(color),
                position as int,
            ),
            final(self).castling_rights == old(self).castling_rights,
            final(self).en_passant == old(self).en_passant,
            final(self).turn == old(self).turn,
    {
        let c = color.index();
        self.clear_word_bit(c, 0, position);
        self.clear_word_bit(c, 1, position);
        self.clear_word_bit(c, 2, position);
        self.clear_word_bit(c, 3, position);
        self.clear_word_bit(c, 4, position);
        self.clear_word_bit(c, 5, position);
    }

    /// The first kind of `color` on `position`, or `Pieces::Empty`.
    fn kind_at(&self, color: Color, position: u8) -> (r: Pieces)
        requires
            position < 64,
        ensures
            r == piece_of_index(kind_index_at(*self, color_index(color), position as int)),
    {
        let c = color.index();
        let row = self.bitboards[c];
        if row[0].get_bit(position) {
            Pieces::King
        } else if row[1].get_bit(position) {
            Pieces::Queen
        } else if row[2].get_bit(position) {
            Pieces::Rook
        } else if row[3].get_bit(position) {
            Pieces::Bishop
        } else if row[4].get_bit(position) {
            Pieces::Knight
        } else if row[5].get_bit(position) {
            Pieces::Pawn
        } else {
            Pieces::Empty
        }
    }

    /// The piece on `position` and its colour; `(Pieces::Empty, Color::White)`
    /// for an empty square.
    pub fn find_piece(&self, position: u8) -> (r: (Pieces, Color))
        requires
            position < 64,
        ensures
            r.0 != Pieces::Empty ==> self.pieces(color_index(r.1), crate::structs::piece_index(r.0)).contains(position as int),
            r.0 == Pieces::Empty ==> !self.occupied(position as int),
    {
        let mut index: usize = 0;
        while index < 6
            invariant
                index <= 6,
                position < 64,
                forall|k: int| 0 <= k < index ==> !#[trigger] self.pieces(0, k).contains(position as int),
                forall|k: int| 0 <= k < index ==> !#[trigger] self.pieces(1, k).contains(position as int),
            decreases 6 - index,
        {
            if self.bitboards[0][index].get_bit(position) {
                return (Pieces::from_u8(index as u8), Color::White);
            }
            if self.bitboards[1][index].get_bit(position) {
                return (Pieces::from_u8(index as u8), Color::Black);
            }
            assert(!self.pieces(0, index as int).contains(position as int));
            assert(!self.pieces(1, index as int).contains(position as int));
            index = index + 1;
        }
        assert(!self.occupied_by(0, position as int));
        assert(!self.occupied_by(1, position as int));
        (Pieces::Empty, Color::White)
    }

    pub fn other_color(&self) -> (r: Color)
        ensures
            r == crate::structs::opposite_of(self.turn),
    {
        match self.turn {
            Color::White => Color::Black,
            Color::Black => Color::White,
        }
    }

    /// Moves the mover's piece from `o` to `d` as a move of type `t` would,
    /// removing what it captures; nothing else changes.
    fn place_pieces(&mut self, o: u8, d: u8, t: MoveType)
        requires
            o < 64,
            d < 64,
        ensures
            final(self).bitboards == moved_words(*old(self), o as int, d as int, t),
            final(self).castling_rights == old(self).castling_rights,
            final(self).en_passant == old(self).en_passant,
            final(self).turn == old(self).turn,
    {
        let ghost b = *self;
        let color = self.turn;
        let c = color.index();
        let enemy = color.opposite();
        let piece = self.kind_at(color, o);
        let k = piece.index();
        if k < 6 {
            self.clear_word_bit(c, k, o);
        }
        match t {
            MoveType::QuietMove | MoveType::DoublePawnPush => {
                if k < 6 {
                    self.set_word_bit(c, k, d);
                }
            },
            MoveType::KingCastle => {
                if k < 6 {
                    self.set_word_bit(c, k, d);
                }
                if 1 <= d && d <= 62 {
                    self.clear_word_bit(c, 2, d - 1);
                    self.set_word_bit(c, 2, d + 1);
                }
            },
            MoveType::QueenCastle => {
                if k < 6 {
                    self.set_word_bit(c, k, d);
                }
                if 1 <= d && d <= 61 {
                    self.clear_word_bit(c, 2, d + 2);
                    self.set_word_bit(c, 2, d - 1);
                }
            },
            MoveType::Capture => {
                self.clear_square(d, enemy);
                if k < 6 {
                    self.set_word_bit(c, k, d);
                }
            },
            MoveType::EnPassant => {
                if c == 0 {
                    if d >= 8 {
                        self.clear_square(d - 8, enemy);
                    }
                } else {
                    if d < 56 {
                        self.clear_square(d + 8, enemy);
                    }
                }
                if k < 6 {
                    self.set_word_bit(c, k, d);
                }
            },
            MoveType::QueenPromotion => {
                self.clear_square(d, enemy);
                self.set_word_bit(c, 1, d);
            },
            MoveType::RookPromotion => {
                self.clear_square(d, enemy);
                self.set_word_bit(c, 2, d);
            },
            MoveType::BishopPromotion => {
                self.clear_square(d, enemy);
                self.set_word_bit(c, 3, d);
            },
            MoveType::KnightPromotion => {
                self.clear_square(d, enemy);
                self.set_word_bit(c, 4, d);
            },
        }
    }

    /// Drops the castling rights that a move from `o` to `d` ends.
    fn update_rights(&mut self, o: u8, d: u8, king_moved: bool)
        ensures
            final(self).castling_rights == (CastlingRights {
                white_kingside: old(self).castling_rights.white_kingside && !(king_moved
                    && old(self).turn == Color::White) && o != 0 && d != 0,
                white_queenside: old(self).castling_rights.white_queenside && !(king_moved
                    && old(self).turn == Color::White) && o != 7 && d != 7,
                black_kingside: old(self).castling_rights.black_kingside && !(king_moved
                    && old(self).turn == Color::Black) && o != 56 && d != 56,
                black_queenside: old(self).castling_rights.black_queenside && !(king_moved
                    && old(self).turn == Color::Black) && o != 63 && d != 63,
            }),
            final(self).bitboards == old(self).bitboards,
            final(self).en_passant == old(self).en_passant,
            final(self).turn == old(self).turn,
    {
        if king_moved {
            match self.turn {
                Color::White => {
                    self.castling_rights.white_kingside = false;
                    self.castling_rights.white_queenside = false;
                },
                Color::Black => {
                    self.castling_rights.black_kingside = false;
                    self.castling_rights.black_queenside = false;
                },
            }
        }
        if o == 0 || d == 0 {
            self.castling_rights.white_kingside = false;
        }
        if o == 7 || d == 7 {
            self.castling_rights.white_queenside = false;
        }
        if o == 63 || d == 63 {
            self.castling_rights.black_queenside = false;
        }
        if o == 56 || d == 56 {
            self.castling_rights.black_kingside = false;
        }
    }

    /// The position after `chess_move`; the move is not checked for legality.
    pub fn move_piece(&self, chess_move: u16) -> (r: Board)
        requires
            decodable(chess_move),
        ensures
            r == make_spec(*self, chess_move),
    {
        let mv = ChessMove::unpack(chess_move);
        let o = mv.origin;
        let d = mv.destination;
        let color = self.turn;
        let king_moved = self.kind_at(color, o).index() == 0;
        let mut new_board = *self;
        new_board.place_pieces(o, d, mv.move_type);
        new_board.update_rights(o, d, king_moved);
        if mv.move_type == MoveType::DoublePawnPush {
            match color {
                Color::White => new_board.en_passant = Some(o + 8),
                Color::Black => {
                    if o >= 8 {
                        new_board.en_passant = Some(o - 8);
                    } else {
                        new_board.en_passant = None;
                    }
                },
            }
        } else {
            new_board.en_passant = None;
        }
        new_board.turn = self.other_color();
        new_board
    }
}

/// Word `i` of the lookup tables at square `s`.
pub open spec fn table_word(t: ChessTables, i: int, s: int) -> u64 {
    t.lookup_tables[i][s].0
}

/// Rook attacks from `s` for occupancy `occ`, through the rook's relevance mask.
pub open spec fn rook_attacks(t: ChessTables, s: int, occ: u64) -> u64 {
    attack_word(s, rook_dirs(), occ & t.rook.masks@[s])
}

/// Bishop attacks from `s` for occupancy `occ`, through the bishop's relevance mask.
pub open spec fn bishop_attacks(t: ChessTables, s: int, occ: u64) -> u64 {
    attack_word(s, bishop_dirs(), occ & t.bishop.masks@[s])
}

pub open spec fn push_table(c: int) -> int {
    if c == 0 { 5 } else { 7 }
}

pub open spec fn capture_table(c: int) -> int {
    if c == 0 { 6 } else { 8 }
}

pub open spec fn long_table(c: int) -> int {
    if c == 0 { 9 } else { 10 }
}

/// The squares a pawn of colour index `c` on `s` may move to: the single push
/// onto an empty square, the double push when both squares are empty, and the
/// diagonal captures of enemy pieces.
pub open spec fn pawn_mask(t: ChessTables, c: int, s: int, occ: u64, enemy: u64) -> u64 {
    let push = table_word(t, push_table(c), s);
    let single_push = push & !occ;
    let pushes = if push & occ == 0 {
        single_push | (table_word(t, long_table(c), s) & !occ)
    } else {
        single_push
    };
    pushes | (table_word(t, capture_table(c), s) & enemy)
}

/// The squares the piece of colour index `c` on `s` may move to, captures
/// included; empty when `c` has no piece there.
pub open spec fn movement_mask(b: Board, t: ChessTables, s: int, c: int) -> u64 {
    let friendly = b.occupancy_word(c);
    let enemy = b.occupancy_word(1 - c);
    let occ = friendly | enemy;
    let k = kind_index_at(b, c, s);
    if k == 0 {
        table_word(t, 0, s) & !friendly
    } else if k == 1 {
        (rook_attacks(t, s, occ) | bishop_attacks(t, s, occ)) & !friendly
    } else if k == 2 {
        rook_attacks(t, s, occ) & !friendly
    } else if k == 3 {
        bishop_attacks(t, s, occ) & !friendly
    } else if k == 4 {
        table_word(t, 4, s) & !friendly
    } else if k == 5 {
        pawn_mask(t, c, s, occ, enemy)
    } else {
        0
    }
}

/// `acc` joined with the movement masks of colour index `c` on each of `sqs`.
pub open spec fn masks_from(b: Board, t: ChessTables, c: int, acc: u64, sqs: Seq<int>) -> u64
    decreases sqs.len(),
{
    if sqs.len() == 0 {
        acc
    } else {
        masks_from(b, t, c, acc | movement_mask(b, t, sqs[0], c), sqs.drop_first())
    }
}

/// Every square some piece of colour index `c` may move to.
pub open spec fn full_capture_mask(b: Board, t: ChessTables, c: int) -> u64 {
    masks_from(b, t, c, 0, order(b.occupancy_word(c)))
}

/// The enemy pieces that attack square `s`, for a king of colour index `c`
/// standing there: each enemy kind is looked up from `s` as if that kind
/// stood on it, and pawns through `c`'s own capture table.
pub open spec fn attackers_to(b: Board, t: ChessTables, s: int, c: int) -> u64 {
    let e = 1 - c;
    let occ = b.occupancy_word(0) | b.occupancy_word(1);
    let rook = rook_attacks(t, s, occ);
    let bishop = bishop_attacks(t, s, occ);
    (table_word(t, 4, s) & b.word(e, 4)) | (table_word(t, 0, s) & b.word(e, 0)) | (table_word(
        t,
        capture_table(c),
        s,
    ) & b.word(e, 5)) | (bishop & b.word(e, 3)) | ((rook | bishop) & b.word(e, 1)) | (rook
        & b.word(e, 2))
}

/// The king of colour index `c` is on the board and attacked.
pub open spec fn king_attacked(b: Board, t: ChessTables, c: int) -> bool {
    b.word(c, 0) != 0 && attackers_to(b, t, lowest(b.word(c, 0)), c) != 0
}

/// The king of colour index `c` is on the board and not attacked.
pub open spec fn king_safe(b: Board, t: ChessTables, c: int) -> bool {
    b.word(c, 0) != 0 && attackers_to(b, t, lowest(b.word(c, 0)), c) == 0
}

pub open spec fn in_check(b: Board, t: ChessTables) -> bool {
    king_attacked(b, t, color_index(b.turn))
}

fn bishop_moves(position: u8, occupancy: BitBoard, tables: &ChessTables) -> (r: BitBoard)
    requires
        tables.wf(),
        position < 64,
    ensures
        r.0 == bishop_attacks(*tables, position as int, occupancy.0),
{
    BitBoard(tables.bishop.lookup(position, occupancy.0))
}

fn rook_moves(position: u8, occupancy: BitBoard, tables: &ChessTables) -> (r: BitBoard)
    requires
        tables.wf(),
        position < 64,
    ensures
        r.0 == rook_attacks(*tables, position as int, occupancy.0),
{
    BitBoard(tables.rook.lookup(position, occupancy.0))
}

fn table_at(tables: &ChessTables, i: usize, position: u8) -> (r: BitBoard)
    requires
        i < 12,
        position < 64,
    ensures
        r.0 == table_word(*tables, i as int, position as int),
{
    tables.lookup_tables[i][position as usize]
}

fn generate_queen_bitmask(
    position: u8,
    occupancy: BitBoard,
    tables: &ChessTables,
    friendly_occupancy: BitBoard,
) -> (r: BitBoard)
    requires
        tables.wf(),
        position < 64,
    ensures
        r.0 == (rook_attacks(*tables, position as int, occupancy.0) | bishop_attacks(
            *tables,
            position as int,
            occupancy.0,
        )) & !friendly_occupancy.0,
{
    let movement_mask = rook_moves(position, occupancy, tables).or(
        bishop_moves(position, occupancy, tables),
    );
    movement_mask.without(friendly_occupancy)
}

fn generate_bishop_bitmask(
    position: u8,
    occupancy: BitBoard,
    tables: &ChessTables,
    friendly_occupancy: BitBoard,
) -> (r: BitBoard)
    requires
        tables.wf(),
        position < 64,
    ensures
        r.0 == bishop_attacks(*tables, position as int, occupancy.0) & !friendly_occupancy.0,
{
    bishop_moves(position, occupancy, tables).without(friendly_occupancy)
}

fn generate_rook_bitmask(
    position: u8,
    occupancy: BitBoard,
    tables: &ChessTables,
    friendly_occupancy: BitBoard,
) -> (r: BitBoard)
    requires
        tables.wf(),
        position < 64,
    ensures
        r.0 == rook_attacks(*tables, position as int, occupancy.0) & !friendly_occupancy.0,
{
    rook_moves(position, occupancy, tables).without(friendly_occupancy)
}

fn generate_knight_bitmask(tables: &ChessTables, position: u8, friendly_occupancy: BitBoard) -> (r:
    BitBoard)
    requires
        position < 64,
    ensures
        r.0 == table_word(*tables, 4, position as int) & !friendly_occupancy.0,
{
    table_at(tables, KNIGHT_MOVES, position).without(friendly_occupancy)
}

fn generate_king_bitmask(tables: &ChessTables, friendly_occupancy: BitBoard, position: u8) -> (r:
    BitBoard)
    requires
        position < 64,
    ensures
        r.0 == table_word(*tables, 0, position as int) & !friendly_occupancy.0,
{
    table_at(tables, KING_MOVES, position).without(friendly_occupancy)
}

fn generate_pawn_bitmask(
    color: Color,
    tables: &ChessTables,
    position: u8,
    occupancy: BitBoard,
    enemy_occupancy: BitBoard,
) -> (r: BitBoard)
    requires
        position < 64,
    ensures
        r.0 == pawn_mask(
            *tables,
            color_index(color),
            position as int,
            occupancy.0,
            enemy_occupancy.0,
        ),
{
    let (push_index, long_index, capture_index) = match color {
        Color::White => (WHITE_PAWN_MOVES, WHITE_PAWN_LONG_MOVES, WHITE_PAWN_CAPTURES),
        Color::Black => (BLACK_PAWN_MOVES, BLACK_PAWN_LONG_MOVES, BLACK_PAWN_CAPTURES),
    };
    let push = table_at(tables, push_index, position);
    let mut movement_mask = push.without(occupancy);
    if push.and(occupancy).is_empty() {
        movement_mask = movement_mask.or(table_at(tables, long_index, position).without(occupancy));
    }
    movement_mask.or(table_at(tables, capture_index, position).and(enemy_occupancy))
}

impl Board {
    /// The movement mask of the piece of `color` on `position`, with the
    /// occupancies of `color` and of its opponent.
    pub fn get_pseudolegal_capture_mask(
        &self,
        position: u8,
        color: Color,
        tables: &ChessTables,
    ) -> (r: (BitBoard, BitBoard, BitBoard))
        requires
            tables.wf(),
            position < 64,
        ensures
            r.0.0 == movement_mask(*self, *tables, position as int, color_index(color)),
            r.1.0 == self.occupancy_word(color_index(color)),
            r.2.0 == self.occupancy_word(1 - color_index(color)),
    {
        let piece = self.kind_at(color, position);
        let friendly_occupancy = self.occupancy_of(color);
        let enemy_occupancy = self.occupancy_of(color.opposite());
        let occupancy = friendly_occupancy.or(enemy_occupancy);
        let movement_mask = match piece {
            Pieces::King => generate_king_bitmask(tables, friendly_occupancy, position),
            Pieces::Pawn => generate_pawn_bitmask(
                color,
                tables,
                position,
                occupancy,
                enemy_occupancy,
            ),
            Pieces::Knight => generate_knight_bitmask(tables, position, friendly_occupancy),
            Pieces::Rook => generate_rook_bitmask(position, occupancy, tables, friendly_occupancy),
            Pieces::Bishop => generate_bishop_bitmask(
                position,
                occupancy,
                tables,
                friendly_occupancy,
            ),
            Pieces::Queen => generate_queen_bitmask(
                position,
                occupancy,
                tables,
                friendly_occupancy,
            ),
            Pieces::Empty => BitBoard(0),
        };
        (movement_mask, friendly_occupancy, enemy_occupancy)
    }

    /// The union of the movement masks of every piece of `color`.
    pub fn get_full_capture_mask(&self, color: Color, tables: &ChessTables) -> (r: BitBoard)
        requires
            tables.wf(),
        ensures
            r.0 == full_capture_mask(*self, *tables, color_index(color)),
    {
        let ghost c = color_index(color);
        let mut board_capturemask = BitBoard(0);
        let mut occupancy = self.occupancy_of(color);
        while !occupancy.is_empty()
            invariant
                tables.wf(),
                c == color_index(color),
                masks_from(*self, *tables, c, board_capturemask.0, order(occupancy.0))
                    == full_capture_mask(*self, *tables, c),
            decreases occupancy.0,
        {
            let ghost before = occupancy.0;
            let index = occupancy.get_index_and_pop();
            assert(order(before).drop_first() =~= order(occupancy.0));
            board_capturemask = board_capturemask.or(
                self.get_pseudolegal_capture_mask(index, color, tables).0,
            );
        }
        board_capturemask
    }

    /// The enemy pieces attacking `position`, for a king of `color` there.
    pub fn attackers_to(&self, position: u8, color: Color, tables: &ChessTables) -> (r: BitBoard)
        requires
            tables.wf(),
            position < 64,
        ensures
            r.0 == attackers_to(*self, *tables, position as int, color_index(color)),
    {
        let enemy = self.bitboards[color.opposite().index()];
        let occupancy = self.get_white_occupancy().or(self.get_black_occupancy());
        let capture_index = match color {
            Color::White => WHITE_PAWN_CAPTURES,
            Color::Black => BLACK_PAWN_CAPTURES,
        };
        let rook = rook_moves(position, occupancy, tables);
        let bishop = bishop_moves(position, occupancy, tables);
        table_at(tables, KNIGHT_MOVES, position).and(enemy[4]).or(
            table_at(tables, KING_MOVES, position).and(enemy[0]),
        ).or(table_at(tables, capture_index, position).and(enemy[5])).or(bishop.and(enemy[3])).or(
            rook.or(bishop).and(enemy[1]),
        ).or(rook.and(enemy[2]))
    }

    fn find_kind_bitboard(&self, color: Color) -> (r: BitBoard)
        ensures
            r.0 == self.word(color_index(color), 0),
    {
        self.bitboards[color.index()][0]
    }

    /// Whether the king of `color` is on the board and attacked.
    pub fn king_attacked(&self, color: Color, tables: &ChessTables) -> (r: bool)
        requires
            tables.wf(),
        ensures
            r == king_attacked(*self, *tables, color_index(color)),
    {
        let king = self.find_kind_bitboard(color);
        if king.is_empty() {
            return false;
        }
        let mut rest = king;
        let square = rest.get_index_and_pop();
        !self.attackers_to(square, color, tables).is_empty()
    }

    /// Whether the side to move is in check: its king's square has attackers.
    pub fn is_in_check(&self, tables: &ChessTables) -> (r: bool)
        requires
            tables.wf(),
        ensures
            r == in_check(*self, *tables),
            r == (self.word(color_index(self.turn), 0) != 0 && attackers_to(
                *self,
                *tables,
                lowest(self.word(color_index(self.turn), 0)),
                color_index(self.turn),
            ) != 0),
    {
        self.king_attacked(self.turn, tables)
    }
}

pub const WHITE_KING_HOME: u8 = 3;
pub const BLACK_KING_HOME: u8 = 59;

/// Squares between the white king and its kingside rook.
pub const WHITE_KINGSIDE_BLOCKERS: u64 = 0x6;
/// Squares between the white king and its queenside rook.
pub const WHITE_QUEENSIDE_BLOCKERS: u64 = 0x70;
/// Squares between the black king and its kingside rook.
pub const BLACK_KINGSIDE_BLOCKERS: u64 = 0x0600000000000000;
/// Squares between the black king and its queenside rook.
pub const BLACK_QUEENSIDE_BLOCKERS: u64 = 0x7000000000000000;

/// Every word of `ms` decodes to a move.
pub open spec fn all_decodable(ms: Seq<u16>) -> bool {
    forall|i: int| 0 <= i < ms.len() ==> decodable(#[trigger] ms[i])
}

pub open spec fn last_rank(c: int) -> int {
    if c == 0 { 7 } else { 0 }
}

/// The moves of the mover's piece on `s` that arrive on `d`, tagged by kind:
/// a double push, four promotions, a capture or a quiet move.
pub open spec fn tag_moves(b: Board, t: ChessTables, s: int, d: int) -> Seq<u16> {
    let c = color_index(b.turn);
    let pawn = kind_index_at(b, c, s) == 5;
    if pawn && squares(table_word(t, long_table(c), s)).contains(d) {
        seq![pack_spec(s, d, MoveType::DoublePawnPush)]
    } else if pawn && d / 8 == last_rank(c) {
        seq![
            pack_spec(s, d, MoveType::QueenPromotion),
            pack_spec(s, d, MoveType::RookPromotion),
            pack_spec(s, d, MoveType::BishopPromotion),
            pack_spec(s, d, MoveType::KnightPromotion),
        ]
    } else if squares(b.occupancy_word(1 - c)).contains(d) {
        seq![pack_spec(s, d, MoveType::Capture)]
    } else {
        seq![pack_spec(s, d, MoveType::QuietMove)]
    }
}

/// `acc` followed by the tagged moves to each of `ds`.
pub open spec fn dests_from(b: Board, t: ChessTables, s: int, acc: Seq<u16>, ds: Seq<int>) -> Seq<u16>
    decreases ds.len(),
{
    if ds.len() == 0 {
        acc
    } else {
        dests_from(b, t, s, acc + tag_moves(b, t, s, ds[0]), ds.drop_first())
    }
}

/// The en-passant capture of the mover's pawn on `s`, when the target lies on
/// its capture diagonal.
pub open spec fn en_passant_moves(b: Board, t: ChessTables, s: int) -> Seq<u16> {
    let c = color_index(b.turn);
    match b.en_passant {
        Some(e) => if kind_index_at(b, c, s) == 5 && squares(table_word(t, capture_table(c), s)).contains(e as int) {
            seq![pack_spec(s, e as int, MoveType::EnPassant)]
        } else {
            seq![]
        },
        None => seq![],
    }
}

/// Castling moves of the mover's king on its home square: the right is held,
/// the squares between king and rook are empty, and neither the king's
/// square, the square it crosses nor the one it lands on is attacked.
pub open spec fn castle_moves(b: Board, t: ChessTables, s: int) -> Seq<u16> {
    let c = color_index(b.turn);
    let home: int = if c == 0 { 3 } else { 59 };
    let occ = b.occupancy_word(0) | b.occupancy_word(1);
    let kingside_blockers = if c == 0 { WHITE_KINGSIDE_BLOCKERS } else { BLACK_KINGSIDE_BLOCKERS };
    let queenside_blockers = if c == 0 { WHITE_QUEENSIDE_BLOCKERS } else { BLACK_QUEENSIDE_BLOCKERS };
    let kingside_right = if c == 0 { b.castling_rights.white_kingside } else { b.castling_rights.black_kingside };
    let queenside_right = if c == 0 { b.castling_rights.white_queenside } else { b.castling_rights.black_queenside };
    if kind_index_at(b, c, s) == 0 && s == home {
        (if kingside_right && occ & kingside_blockers == 0 && attackers_to(b, t, home, c) == 0
            && attackers_to(b, t, home - 1, c) == 0 && attackers_to(b, t, home - 2, c) == 0 {
            seq![pack_spec(home, home - 2, MoveType::KingCastle)]
        } else {
            seq![]
        }) + (if queenside_right && occ & queenside_blockers == 0 && attackers_to(b, t, home, c)
            == 0 && attackers_to(b, t, home + 1, c) == 0 && attackers_to(b, t, home + 2, c) == 0 {
            seq![pack_spec(home, home + 2, MoveType::QueenCastle)]
        } else {
            seq![]
        })
    } else {
        seq![]
    }
}

/// The pseudo-legal moves of the mover's piece on `s`: en passant, then the
/// movement mask lowest square first, then castling.
pub open spec fn piece_moves(b: Board, t: ChessTables, s: int) -> Seq<u16> {
    let c = color_index(b.turn);
    if kind_index_at(b, c, s) == 6 {
        seq![]
    } else {
        dests_from(b, t, s, en_passant_moves(b, t, s), order(movement_mask(b, t, s, c)))
            + castle_moves(b, t, s)
    }
}

/// `acc` followed by the pseudo-legal moves from each of `sqs`.
pub open spec fn moves_from(b: Board, t: ChessTables, acc: Seq<u16>, sqs: Seq<int>) -> Seq<u16>
    decreases sqs.len(),
{
    if sqs.len() == 0 {
        acc
    } else {
        moves_from(b, t, acc + piece_moves(b, t, sqs[0]), sqs.drop_first())
    }
}

/// The pseudo-legal moves of the side to move, its pieces lowest square first.
pub open spec fn pseudo_legal_moves(b: Board, t: ChessTables) -> Seq<u16> {
    moves_from(b, t, seq![], order(b.occupancy_word(color_index(b.turn))))
}

/// A move that leaves the mover's king on the board and unattacked.
pub open spec fn is_legal_after(b: Board, t: ChessTables, m: u16) -> bool {
    king_safe(make_spec(b, m), t, color_index(b.turn))
}

/// `acc` followed by the moves of `ms` that leave the mover's king safe.
pub open spec fn legal_from(b: Board, t: ChessTables, acc: Seq<u16>, ms: Seq<u16>) -> Seq<u16>
    decreases ms.len(),
{
    if ms.len() == 0 {
        acc
    } else {
        legal_from(
            b,
            t,
            acc + if is_legal_after(b, t, ms[0]) {
                seq![ms[0]]
            } else {
                seq![]
            },
            ms.drop_first(),
        )
    }
}

/// The legal moves: the pseudo-legal moves, in order, that leave the mover's king safe.
pub open spec fn legal_moves(b: Board, t: ChessTables) -> Seq<u16> {
    legal_from(b, t, seq![], pseudo_legal_moves(b, t))
}

pub open spec fn board_state(b: Board, t: ChessTables) -> BoardState {
    if legal_moves(b, t).len() != 0 {
        BoardState::OnGoing
    } else if in_check(b, t) {
        BoardState::Checkmate
    } else {
        BoardState::Stalemate
    }
}

fn push_move(buffer: &mut Vec<u16>, origin: u8, destination: u8, move_type: MoveType)
    requires
        all_decodable(old(buffer)@),
    ensures
        final(buffer)@ == old(buffer)@.push(pack_spec(origin as int, destination as int, move_type)),
        all_decodable(final(buffer)@),
{
    let m = ChessMove { origin, destination, move_type }.pack();
    buffer.push(m);
}

impl Board {
    /// The tagged moves of the mover's piece on `position` arriving on `destination`.
    fn push_tagged_moves(
        &self,
        buffer: &mut Vec<u16>,
        position: u8,
        destination: u8,
        enemy_occupancy: BitBoard,
        tables: &ChessTables,
    )
        requires
            position < 64,
            destination < 64,
            enemy_occupancy.0 == self.occupancy_word(1 - color_index(self.turn)),
            all_decodable(old(buffer)@),
        ensures
            final(buffer)@ == old(buffer)@ + tag_moves(*self, *tables, position as int, destination as int),
            all_decodable(final(buffer)@),
    {
        let ghost start = buffer@;
        let color = self.turn;
        let pawn = self.kind_at(color, position).index() == 5;
        let long_index = match color {
            Color::White => WHITE_PAWN_LONG_MOVES,
            Color::Black => BLACK_PAWN_LONG_MOVES,
        };
        let last_rank: u8 = match color {
            Color::White => 7,
            Color::Black => 0,
        };
        if pawn && table_at(tables, long_index, position).get_bit(destination) {
            push_move(buffer, position, destination, MoveType::DoublePawnPush);
        } else if pawn && destination / 8 == last_rank {
            push_move(buffer, position, destination, MoveType::QueenPromotion);
            push_move(buffer, position, destination, MoveType::RookPromotion);
            push_move(buffer, position, destination, MoveType::BishopPromotion);
            push_move(buffer, position, destination, MoveType::KnightPromotion);
        } else if enemy_occupancy.get_bit(destination) {
            push_move(buffer, position, destination, MoveType::Capture);
        } else {
            push_move(buffer, position, destination, MoveType::QuietMove);
        }
        assert(buffer@ =~= start + tag_moves(*self, *tables, position as int, destination as int));
    }

    /// Castling moves of the mover's king on `position`.
    fn push_castles(&self, buffer: &mut Vec<u16>, position: u8, tables: &ChessTables)
        requires
            tables.wf(),
            position < 64,
            kind_index_at(*self, color_index(self.turn), position as int) == 0,
            all_decodable(old(buffer)@),
        ensures
            final(buffer)@ == old(buffer)@ + castle_moves(*self, *tables, position as int),
            all_decodable(final(buffer)@),
    {
        let ghost start = buffer@;
        let color = self.turn;
        let (home, kingside_blockers, queenside_blockers, kingside_right, queenside_right) = match color {
            Color::White => (
                WHITE_KING_HOME,
                WHITE_KINGSIDE_BLOCKERS,
                WHITE_QUEENSIDE_BLOCKERS,
                self.castling_rights.white_kingside,
                self.castling_rights.white_queenside,
            ),
            Color::Black => (
                BLACK_KING_HOME,
                BLACK_KINGSIDE_BLOCKERS,
                BLACK_QUEENSIDE_BLOCKERS,
                self.castling_rights.black_kingside,
                self.castling_rights.black_queenside,
            ),
        };
        if position != home {
            assert(castle_moves(*self, *tables, position as int) =~= seq![]);
            assert(buffer@ =~= start + castle_moves(*self, *tables, position as int));
            return;
        }
        let occupancy = self.get_white_occupancy().or(self.get_black_occupancy());
        if kingside_right && occupancy.0 & kingside_blockers == 0 && self.attackers_to(
            home,
            color,
            tables,
        ).is_empty() && self.attackers_to(home - 1, color, tables).is_empty() && self.attackers_to(
            home - 2,
            color,
            tables,
        ).is_empty() {
            push_move(buffer, home, home - 2, MoveType::KingCastle);
        }
        if queenside_right && occupancy.0 & queenside_blockers == 0 && self.attackers_to(
            home,
            color,
            tables,
        ).is_empty() && self.attackers_to(home + 1, color, tables).is_empty() && self.attackers_to(
            home + 2,
            color,
            tables,
        ).is_empty() {
            push_move(buffer, home, home + 2, MoveType::QueenCastle);
        }
        assert(buffer@ =~= start + castle_moves(*self, *tables, position as int));
    }

    /// The pseudo-legal moves of the mover's piece on `position`.
    fn get_pseudolegal_moves(&self, position: u8, tables: &ChessTables) -> (r: Vec<u16>)
        requires
            tables.wf(),
            position < 64,
        ensures
            r@ == piece_moves(*self, *tables, position as int),
            all_decodable(r@),
    {
        let color = self.turn;
        let ghost c = color_index(color);
        let mut buffer: Vec<u16> = Vec::new();
        let piece = self.kind_at(color, position);
        if piece.index() == 6 {
            assert(buffer@ =~= piece_moves(*self, *tables, position as int));
            return buffer;
        }
        let (mask, _friendly, enemy_occupancy) = self.get_pseudolegal_capture_mask(
            position,
            color,
            tables,
        );
        let capture_index = match color {
            Color::White => WHITE_PAWN_CAPTURES,
            Color::Black => BLACK_PAWN_CAPTURES,
        };
        if piece.index() == 5 {
            if let Some(target) = self.en_passant {
                if target < 64 && table_at(tables, capture_index, position).get_bit(target) {
                    push_move(&mut buffer, position, target, MoveType::EnPassant);
                }
            }
        }
        assert(buffer@ =~= en_passant_moves(*self, *tables, position as int));
        let mut remaining = mask;
        while !remaining.is_empty()
            invariant
                tables.wf(),
                position < 64,
                c == color_index(self.turn),
                enemy_occupancy.0 == self.occupancy_word(1 - c),
                all_decodable(buffer@),
                dests_from(*self, *tables, position as int, buffer@, order(remaining.0))
                    == dests_from(
                    *self,
                    *tables,
                    position as int,
                    en_passant_moves(*self, *tables, position as int),
                    order(mask.0),
                ),
            decreases remaining.0,
        {
            let ghost before = remaining.0;
            let destination = remaining.get_index_and_pop();
            assert(order(before).drop_first() =~= order(remaining.0));
            self.push_tagged_moves(&mut buffer, position, destination, enemy_occupancy, tables);
        }
        if piece.index() == 0 {
            self.push_castles(&mut buffer, position, tables);
        } else {
            assert(castle_moves(*self, *tables, position as int) =~= seq![]);
            assert(buffer@ =~= buffer@ + castle_moves(*self, *tables, position as int));
        }
        buffer
    }

    /// All pseudo-legal moves of the side to move.
    pub fn get_all_pseudolegal_moves(&self, tables: &ChessTables) -> (r: Vec<u16>)
        requires
            tables.wf(),
        ensures
            r@ == pseudo_legal_moves(*self, *tables),
            all_decodable(r@),
    {
        let mut buffer: Vec<u16> = Vec::new();
        let mut own = self.occupancy_of(self.turn);
        while !own.is_empty()
            invariant
                tables.wf(),
                all_decodable(buffer@),
                moves_from(*self, *tables, buffer@, order(own.0)) == pseudo_legal_moves(*self, *tables),
            decreases own.0,
        {
            let ghost before = own.0;
            let position = own.get_index_and_pop();
            assert(order(before).drop_first() =~= order(own.0));
            let mut moves = self.get_pseudolegal_moves(position, tables);
            buffer.append(&mut moves);
        }
        buffer
    }

    /// Whether the king of `color` is on the board and unattacked.
    fn king_safe(&self, color: Color, tables: &ChessTables) -> (r: bool)
        requires
            tables.wf(),
        ensures
            r == king_safe(*self, *tables, color_index(color)),
    {
        let king = self.find_kind_bitboard(color);
        if king.is_empty() {
            return false;
        }
        let mut rest = king;
        let square = rest.get_index_and_pop();
        self.attackers_to(square, color, tables).is_empty()
    }

    /// The legal moves of the side to move, in generation order.
    pub fn get_all_legal_moves(&self, tables: &ChessTables) -> (r: Vec<u16>)
        requires
            tables.wf(),
        ensures
            r@ == legal_moves(*self, *tables),
            all_decodable(r@),
    {
        let pseudo = self.get_all_pseudolegal_moves(tables);
        let mut legal: Vec<u16> = Vec::new();
        let mut i: usize = 0;
        assert(pseudo@.subrange(0, pseudo@.len() as int) =~= pseudo@);
        assert(legal@ =~= seq![]);
        while i < pseudo.len()
            invariant
                tables.wf(),
                i <= pseudo@.len(),
                pseudo@ == pseudo_legal_moves(*self, *tables),
                all_decodable(pseudo@),
                all_decodable(legal@),
                legal_from(*self, *tables, legal@, pseudo@.subrange(i as int, pseudo@.len() as int))
                    == legal_moves(*self, *tables),
            decreases pseudo@.len() - i,
        {
            let m = pseudo[i];
            assert(decodable(pseudo@[i as int]));
            let after = self.move_piece(m);
            let ghost rest = pseudo@.subrange(i as int, pseudo@.len() as int);
            let ghost acc = legal@;
            assert(rest.drop_first() =~= pseudo@.subrange(i as int + 1, pseudo@.len() as int));
            assert(rest[0] == m);
            if after.king_safe(self.turn, tables) {
                legal.push(m);
                assert(legal@ =~= acc + seq![m]);
            } else {
                assert(legal@ =~= acc + seq![]);
            }
            i = i + 1;
        }
        assert(pseudo@.subrange(pseudo@.len() as int, pseudo@.len() as int) =~= seq![]);
        legal
    }

    /// Checkmate or stalemate when the mover has no legal move, else on going.
    pub fn get_board_state(&self, tables: &ChessTables) -> (r: BoardState)
        requires
            tables.wf(),
        ensures
            r == board_state(*self, *tables),
    {
        let legal_moves = self.get_all_legal_moves(tables);
        if legal_moves.len() != 0 {
            return BoardState::OnGoing;
        }
        if self.is_in_check(tables) {
            return BoardState::Checkmate;
        }
        BoardState::Stalemate
    }
}

pub open spec fn capped(n: nat) -> nat {
    if n > usize::MAX {
        usize::MAX as nat
    } else {
        n
    }
}

/// Number of leaf positions `depth` plies below `b`.
pub open spec fn perft_count(b: Board, t: ChessTables, depth: nat) -> nat
    decreases depth, 0nat,
{
    if depth == 0 {
        1
    } else {
        perft_sum(b, t, legal_moves(b, t), (depth - 1) as nat)
    }
}

/// Sum of `perft_count` at `depth` over the positions after each of `ms`.
pub open spec fn perft_sum(b: Board, t: ChessTables, ms: Seq<u16>, depth: nat) -> nat
    decreases depth, ms.len() + 1,
{
    if ms.len() == 0 {
        0
    } else {
        perft_count(make_spec(b, ms[0]), t, depth) + perft_sum(b, t, ms.drop_first(), depth)
    }
}

proof fn lemma_perft_sum_leaves(b: Board, t: ChessTables, ms: Seq<u16>)
    ensures
        perft_sum(b, t, ms, 0) == ms.len(),
    decreases ms.len(),
{
    if ms.len() > 0 {
        lemma_perft_sum_leaves(b, t, ms.drop_first());
        assert(perft_count(make_spec(b, ms[0]), t, 0) == 1);
    }
}

fn perft_internal(board: &Board, depth: u8, tables: &ChessTables) -> (r: usize)
    requires
        tables.wf(),
    ensures
        r == capped(perft_count(*board, *tables, depth as nat)),
    decreases depth,
{
    if depth == 0 {
        return 1;
    }
    let moves = board.get_all_legal_moves(tables);
    if depth == 1 {
        proof {
            lemma_perft_sum_leaves(*board, *tables, moves@);
        }
        return moves.len();
    }
    let ghost d = (depth - 1) as nat;
    let mut sum: usize = 0;
    let ghost mut acc: nat = 0;
    let mut i: usize = 0;
    assert(moves@.subrange(0, moves@.len() as int) =~= moves@);
    while i < moves.len()
        invariant
            tables.wf(),
            depth >= 2,
            d == depth - 1,
            i <= moves@.len(),
            all_decodable(moves@),
            sum == capped(acc),
            acc + perft_sum(*board, *tables, moves@.subrange(i as int, moves@.len() as int), d)
                == perft_sum(*board, *tables, moves@, d),
        decreases moves@.len() - i,
    {
        let ghost rest = moves@.subrange(i as int, moves@.len() as int);
        assert(rest.drop_first() =~= moves@.subrange(i as int + 1, moves@.len() as int));
        assert(decodable(moves@[i as int]));
        let after = board.move_piece(moves[i]);
        let count = perft_internal(&after, depth - 1, tables);
        proof {
            acc = acc + perft_count(after, *tables, d);
        }
        sum = sum.saturating_add(count);
        i = i + 1;
    }
    sum
}

/// Number of leaf positions `depth` plies below `board` (capped at `usize::MAX`).
pub fn perft(board: Board, depth: u8, tables: &ChessTables) -> (r: usize)
    requires
        tables.wf(),
    ensures
        r == capped(perft_count(board, *tables, depth as nat)),
{
    perft_internal(&board, depth, tables)
}

/// Each legal move of `board` with the number of leaf positions `depth - 1`
/// plies after it.
pub fn perft_divide(board: &Board, depth: u8, tables: &ChessTables) -> (r: Vec<(u16, usize)>)
    requires
        tables.wf(),
        depth >= 1,
    ensures
        r@.len() == legal_moves(*board, *tables).len(),
        forall|i: int|
            0 <= i < r@.len() ==> (#[trigger] r@[i]).0 == legal_moves(*board, *tables)[i] && r@[i].1
                == capped(perft_count(make_spec(*board, r@[i].0), *tables, (depth - 1) as nat)),
{
    let moves = board.get_all_legal_moves(tables);
    let mut out: Vec<(u16, usize)> = Vec::new();
    let mut i: usize = 0;
    while i < moves.len()
        invariant
            tables.wf(),
            depth >= 1,
            i <= moves@.len(),
            moves@ == legal_moves(*board, *tables),
            all_decodable(moves@),
            out@.len() == i,
            forall|j: int|
                0 <= j < i ==> (#[trigger] out@[j]).0 == moves@[j] && out@[j].1 == capped(
                    perft_count(make_spec(*board, out@[j].0), *tables, (depth - 1) as nat),
                ),
        decreases moves@.len() - i,
    {
        let m = moves[i];
        assert(decodable(moves@[i as int]));
        let count = perft_internal(&board.move_piece(m), depth - 1, tables);
        out.push((m, count));
        i = i + 1;
    }
    out
}

/// Whether `m` goes from `o` to `d` and, when it promotes, to the piece
/// named by `preference` (`q`, `r`, `b`, or `k` for a knight).
pub open spec fn move_matches(m: u16, o: int, d: int, preference: char) -> bool {
    &&& origin_of(m) == o
    &&& destination_of(m) == d
    &&& match type_of(m) {
        MoveType::QueenPromotion => preference == 'q',
        MoveType::RookPromotion => preference == 'r',
        MoveType::BishopPromotion => preference == 'b',
        MoveType::KnightPromotion => preference == 'k',
        _ => true,
    }
}

/// The first move of `ms` that matches, if any.
pub open spec fn first_match(ms: Seq<u16>, o: int, d: int, preference: char) -> Option<u16>
    decreases ms.len(),
{
    if ms.len() == 0 {
        None
    } else if move_matches(ms[0], o, d, preference) {
        Some(ms[0])
    } else {
        first_match(ms.drop_first(), o, d, preference)
    }
}

impl Board {
    /// Plays the legal move from `position` to `destination` (promoting as
    /// `promotion_preference` asks); leaves the position unchanged when there
    /// is no such legal move.
    pub fn try_make_move(
        &mut self,
        position: u8,
        destination: u8,
        promotion_preference: char,
        tables: &ChessTables,
    )
        requires
            tables.wf(),
        ensures
            *final(self) == match first_match(
                legal_moves(*old(self), *tables),
                position as int,
                destination as int,
                promotion_preference,
            ) {
                Some(m) => make_spec(*old(self), m),
                None => *old(self),
            },
    {
        let candidates = self.get_all_legal_moves(tables);
        let ghost all = candidates@;
        let mut i: usize = 0;
        assert(all.subrange(0, all.len() as int) =~= all);
        while i < candidates.len()
            invariant
                i <= all.len(),
                candidates@ == all,
                all == legal_moves(*old(self), *tables),
                all_decodable(all),
                *self == *old(self),
                first_match(all.subrange(i as int, all.len() as int), position as int, destination as int, promotion_preference)
                    == first_match(all, position as int, destination as int, promotion_preference),
            decreases all.len() - i,
        {
            let ghost rest = all.subrange(i as int, all.len() as int);
            assert(rest.drop_first() =~= all.subrange(i as int + 1, all.len() as int));
            let m = candidates[i];
            assert(decodable(all[i as int]));
            let parsed = ChessMove::unpack(m);
            let wanted = match parsed.move_type {
                MoveType::QueenPromotion => promotion_preference == 'q',
                MoveType::RookPromotion => promotion_preference == 'r',
                MoveType::BishopPromotion => promotion_preference == 'b',
                MoveType::KnightPromotion => promotion_preference == 'k',
                _ => true,
            };
            if wanted && parsed.origin == position && parsed.destination == destination {
                *self = self.move_piece(m);
                return;
            }
            i = i + 1;
        }
    }
}

} // verus!
