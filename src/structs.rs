//! The engine's plain data: colours, piece kinds, packed moves, castling rights,
//! the position and the fixed-size move buffers.
use vstd::prelude::*;
use crate::bitboard::{squares, BitBoard};

verus! {

pub const MAX_LEGAL_MOVES: usize = 32;

pub const MAX_MOVE_BUFFER: usize = 256;

pub const BOARD_SIZE: usize = 64;

pub const STARTING_POSITION_FEN: &'static str = "rnbqkbnr/pppppppp/8/8/8/8/PPPPPPPP/RNBQKBNR w KQkq - 0 1";

#[derive(Debug, PartialEq, Eq, Structural, Clone, Copy)]
pub enum Color {
    White,
    Black,
}

/// Index of a colour in a position's bitboard array.
pub open spec fn color_index(c: Color) -> int {
    match c {
        Color::White => 0,
        Color::Black => 1,
    }
}

pub open spec fn opposite_of(c: Color) -> Color {
    match c {
        Color::White => Color::Black,
        Color::Black => Color::White,
    }
}

impl Color {
    pub fn opposite(&self) -> (r: Color)
        ensures
            r == opposite_of(*self),
            r != *self,
    {
        match self {
            Color::White => Color::Black,
            Color::Black => Color::White,
        }
    }

    pub fn index(&self) -> (r: usize)
        ensures
            r == color_index(*self),
            r < 2,
    {
        match self {
            Color::White => 0,
            Color::Black => 1,
        }
    }
}

#[derive(PartialEq, Eq, Structural, Clone, Copy, Debug)]
pub enum MoveType {
    KnightPromotion,
    BishopPromotion,
    RookPromotion,
    QuietMove,
    DoublePawnPush,
    QueenCastle,
    KingCastle,
    Capture,
    EnPassant,
    QueenPromotion,
}

/// The 4-bit tag of a move type.
pub open spec fn tag_of(t: MoveType) -> int {
    match t {
        MoveType::KnightPromotion => 0,
        MoveType::BishopPromotion => 1,
        MoveType::RookPromotion => 2,
        MoveType::QuietMove => 3,
        MoveType::DoublePawnPush => 4,
        MoveType::QueenCastle => 5,
        MoveType::KingCastle => 6,
        MoveType::Capture => 7,
        MoveType::EnPassant => 8,
        MoveType::QueenPromotion => 9,
    }
}

/// The move type of a tag below ten.
pub open spec fn type_of_tag(t: int) -> MoveType {
    if t == 0 {
        MoveType::KnightPromotion
    } else if t == 1 {
        MoveType::BishopPromotion
    } else if t == 2 {
        MoveType::RookPromotion
    } else if t == 3 {
        MoveType::QuietMove
    } else if t == 4 {
        MoveType::DoublePawnPush
    } else if t == 5 {
        MoveType::QueenCastle
    } else if t == 6 {
        MoveType::KingCastle
    } else if t == 7 {
        MoveType::Capture
    } else if t == 8 {
        MoveType::EnPassant
    } else {
        MoveType::QueenPromotion
    }
}

impl MoveType {
    pub fn from_u8(index: u8) -> (r: MoveType)
        requires
            index < 10,
        ensures
            r == type_of_tag(index as int),
            tag_of(r) == index,
    {
        match index {
            0 => MoveType::KnightPromotion,
            1 => MoveType::BishopPromotion,
            2 => MoveType::RookPromotion,
            3 => MoveType::QuietMove,
            4 => MoveType::DoublePawnPush,
            5 => MoveType::QueenCastle,
            6 => MoveType::KingCastle,
            7 => MoveType::Capture,
            8 => MoveType::EnPassant,
            _ => MoveType::QueenPromotion,
        }
    }

    pub fn to_u8(&self) -> (r: u8)
        ensures
            r == tag_of(*self),
            r < 10,
    {
        match self {
            MoveType::KnightPromotion => 0,
            MoveType::BishopPromotion => 1,
            MoveType::RookPromotion => 2,
            MoveType::QuietMove => 3,
            MoveType::DoublePawnPush => 4,
            MoveType::QueenCastle => 5,
            MoveType::KingCastle => 6,
            MoveType::Capture => 7,
            MoveType::EnPassant => 8,
            MoveType::QueenPromotion => 9,
        }
    }
}

#[derive(Clone, Copy, Debug, PartialEq, Eq, Structural)]
pub struct ChessMove {
    pub origin: u8,
    pub destination: u8,
    pub move_type: MoveType,
}

/// The 16-bit word of a move: tag in the top four bits, then six bits of
/// origin, then six bits of destination.
pub open spec fn pack_spec(origin: int, destination: int, t: MoveType) -> u16 {
    (tag_of(t) * 4096 + (origin % 64) * 64 + destination % 64) as u16
}

/// Whether a word decodes to a move (its tag is below ten).
pub open spec fn decodable(packed: u16) -> bool {
    packed as int / 4096 < 10
}

pub open spec fn origin_of(packed: u16) -> int {
    (packed as int / 64) % 64
}

pub open spec fn destination_of(packed: u16) -> int {
    packed as int % 64
}

pub open spec fn type_of(packed: u16) -> MoveType {
    type_of_tag(packed as int / 4096)
}

impl ChessMove {
    pub fn pack(&self) -> (r: u16)
        ensures
            r == pack_spec(self.origin as int, self.destination as int, self.move_type),
            decodable(r),
            origin_of(r) == self.origin % 64,
            destination_of(r) == self.destination % 64,
            type_of(r) == self.move_type,
    {
        let t = self.move_type.to_u8() as u16;
        let o = (self.origin % 64) as u16;
        let d = (self.destination % 64) as u16;
        let r = t * 4096 + o * 64 + d;
        proof {
            assert(r / 4096 == t) by (nonlinear_arith)
                requires
                    r == t * 4096 + o * 64 + d,
                    o < 64,
                    d < 64,
            ;
            assert((r / 64) % 64 == o && r % 64 == d) by (nonlinear_arith)
                requires
                    r == t * 4096 + o * 64 + d,
                    o < 64,
                    d < 64,
                    t < 10,
            ;
        }
        r
    }

    pub fn unpack(packed_move: u16) -> (r: ChessMove)
        requires
            decodable(packed_move),
        ensures
            r.origin == origin_of(packed_move),
            r.destination == destination_of(packed_move),
            r.move_type == type_of(packed_move),
            r.origin < 64,
            r.destination < 64,
    {
        let move_type = MoveType::from_u8((packed_move / 4096) as u8);
        ChessMove {
            origin: ((packed_move / 64) % 64) as u8,
            destination: (packed_move % 64) as u8,
            move_type,
        }
    }
}

/// Packing a move with squares on the board and unpacking the word gives the move back.
pub proof fn lemma_pack_unpack(origin: int, destination: int, t: MoveType)
    requires
        0 <= origin < 64,
        0 <= destination < 64,
    ensures
        decodable(pack_spec(origin, destination, t)),
        origin_of(pack_spec(origin, destination, t)) == origin,
        destination_of(pack_spec(origin, destination, t)) == destination,
        type_of(pack_spec(origin, destination, t)) == t,
{
    let k = tag_of(t);
    let r = k * 4096 + origin * 64 + destination;
    assert(0 <= r < 65536 && r / 4096 == k && (r / 64) % 64 == origin && r % 64 == destination)
        by (nonlinear_arith)
        requires
            r == k * 4096 + origin * 64 + destination,
            0 <= origin < 64,
            0 <= destination < 64,
            0 <= k < 10,
    ;
}

/// Unpacking a decodable word and packing the parts gives the word back.
pub proof fn lemma_unpack_pack(packed: u16)
    requires
        decodable(packed),
    ensures
        pack_spec(origin_of(packed), destination_of(packed), type_of(packed)) == packed,
{
    let p = packed as int;
    assert(tag_of(type_of_tag(p / 4096)) == p / 4096);
    assert((p / 4096) * 4096 + ((p / 64) % 64) * 64 + p % 64 == p) by (nonlinear_arith)
        requires
            0 <= p < 65536,
    ;
}

#[derive(Clone, Copy, PartialEq, Eq, Structural, Debug)]
pub enum Pieces {
    King,
    Queen,
    Rook,
    Bishop,
    Knight,
    Pawn,
    Empty,
}

/// Index of a piece kind in a colour's bitboard array.
pub open spec fn piece_index(p: Pieces) -> int {
    match p {
        Pieces::King => 0,
        Pieces::Queen => 1,
        Pieces::Rook => 2,
        Pieces::Bishop => 3,
        Pieces::Knight => 4,
        Pieces::Pawn => 5,
        Pieces::Empty => 6,
    }
}

pub open spec fn piece_of_index(i: int) -> Pieces {
    if i == 0 {
        Pieces::King
    } else if i == 1 {
        Pieces::Queen
    } else if i == 2 {
        Pieces::Rook
    } else if i == 3 {
        Pieces::Bishop
    } else if i == 4 {
        Pieces::Knight
    } else if i == 5 {
        Pieces::Pawn
    } else {
        Pieces::Empty
    }
}

impl Pieces {
    pub fn from_u8(index: u8) -> (r: Pieces)
        requires
            index < 7,
        ensures
            r == piece_of_index(index as int),
            piece_index(r) == index,
    {
        match index {
            0 => Pieces::King,
            1 => Pieces::Queen,
            2 => Pieces::Rook,
            3 => Pieces::Bishop,
            4 => Pieces::Knight,
            5 => Pieces::Pawn,
            _ => Pieces::Empty,
        }
    }

    pub fn index(&self) -> (r: usize)
        ensures
            r == piece_index(*self),
            r < 7,
    {
        match self {
            Pieces::King => 0,
            Pieces::Queen => 1,
            Pieces::Rook => 2,
            Pieces::Bishop => 3,
            Pieces::Knight => 4,
            Pieces::Pawn => 5,
            Pieces::Empty => 6,
        }
    }
}

/// The tables of `ChessTables::lookup_tables`, in order.
pub enum LookupTable {
    KingMoves,
    QueenMoves,
    RookMoves,
    BishopMoves,
    KnightMoves,
    WhitePawnMoves,
    WhitePawnCaptures,
    BlackPawnMoves,
    BlackPawnCaptures,
    WhitePawnLongMoves,
    BlackPawnLongMoves,
    Blank,
}

pub const KING_MOVES: usize = 0;
pub const QUEEN_MOVES: usize = 1;
pub const ROOK_MOVES: usize = 2;
pub const BISHOP_MOVES: usize = 3;
pub const KNIGHT_MOVES: usize = 4;
pub const WHITE_PAWN_MOVES: usize = 5;
pub const WHITE_PAWN_CAPTURES: usize = 6;
pub const BLACK_PAWN_MOVES: usize = 7;
pub const BLACK_PAWN_CAPTURES: usize = 8;
pub const WHITE_PAWN_LONG_MOVES: usize = 9;
pub const BLACK_PAWN_LONG_MOVES: usize = 10;

/// The position of a table in `ChessTables::lookup_tables`.
pub open spec fn lookup_index(t: LookupTable) -> int {
    match t {
        LookupTable::KingMoves => 0,
        LookupTable::QueenMoves => 1,
        LookupTable::RookMoves => 2,
        LookupTable::BishopMoves => 3,
        LookupTable::KnightMoves => 4,
        LookupTable::WhitePawnMoves => 5,
        LookupTable::WhitePawnCaptures => 6,
        LookupTable::BlackPawnMoves => 7,
        LookupTable::BlackPawnCaptures => 8,
        LookupTable::WhitePawnLongMoves => 9,
        LookupTable::BlackPawnLongMoves => 10,
        LookupTable::Blank => 11,
    }
}

impl LookupTable {
    pub fn index(&self) -> (r: usize)
        ensures
            r == lookup_index(*self),
    {
        match self {
            LookupTable::KingMoves => KING_MOVES,
            LookupTable::QueenMoves => QUEEN_MOVES,
            LookupTable::RookMoves => ROOK_MOVES,
            LookupTable::BishopMoves => BISHOP_MOVES,
            LookupTable::KnightMoves => KNIGHT_MOVES,
            LookupTable::WhitePawnMoves => WHITE_PAWN_MOVES,
            LookupTable::WhitePawnCaptures => WHITE_PAWN_CAPTURES,
            LookupTable::BlackPawnMoves => BLACK_PAWN_MOVES,
            LookupTable::BlackPawnCaptures => BLACK_PAWN_CAPTURES,
            LookupTable::WhitePawnLongMoves => WHITE_PAWN_LONG_MOVES,
            LookupTable::BlackPawnLongMoves => BLACK_PAWN_LONG_MOVES,
            LookupTable::Blank => 11,
        }
    }
}

/// A fixed-size buffer of packed moves with an explicit length.
pub struct Moves {
    pub move_buffer: [u16; MAX_LEGAL_MOVES],
    pub length: u8,
}

/// A buffer large enough for every legal move of a position.
pub struct LegalMoves {
    pub move_buffer: [u16; MAX_MOVE_BUFFER],
    pub length: u8,
}

#[derive(PartialEq, Eq, Structural, Clone, Copy, Debug)]
pub enum BoardState {
    Checkmate,
    Stalemate,
    OnGoing,
}

#[derive(Clone, Copy, Debug, PartialEq, Eq, Structural)]
pub struct CastlingRights {
    pub white_queenside: bool,
    pub white_kingside: bool,
    pub black_queenside: bool,
    pub black_kingside: bool,
}

/// Every right held in `a` is held in `b`.
pub open spec fn rights_within(a: CastlingRights, b: CastlingRights) -> bool {
    &&& a.white_queenside ==> b.white_queenside
    &&& a.white_kingside ==> b.white_kingside
    &&& a.black_queenside ==> b.black_queenside
    &&& a.black_kingside ==> b.black_kingside
}

impl CastlingRights {
    pub fn all() -> (r: CastlingRights)
        ensures
            r.white_queenside && r.white_kingside && r.black_queenside && r.black_kingside,
    {
        CastlingRights {
            white_queenside: true,
            white_kingside: true,
            black_queenside: true,
            black_kingside: true,
        }
    }
}

impl Default for CastlingRights {
    fn default() -> (r: CastlingRights)
        ensures
            r.white_queenside && r.white_kingside && r.black_queenside && r.black_kingside,
    {
        CastlingRights::all()
    }
}

#[derive(Clone, Copy)]
pub struct Board {
    pub bitboards: [[BitBoard; 6]; 2],
    pub castling_rights: CastlingRights,
    /// The square a pawn lands on when capturing en passant.
    pub en_passant: Option<u8>,
    pub turn: Color,
}

impl Board {
    /// The word of colour index `c` and piece index `k`.
    pub open spec fn word(&self, c: int, k: int) -> u64 {
        self.bitboards[c][k].0
    }

    /// The squares holding a piece of colour index `c` and piece index `k`.
    pub open spec fn pieces(&self, c: int, k: int) -> Set<int> {
        squares(self.word(c, k))
    }

    /// The occupancy word of colour index `c`.
    pub open spec fn occupancy_word(&self, c: int) -> u64 {
        self.word(c, 0) | self.word(c, 1) | self.word(c, 2) | self.word(c, 3) | self.word(c, 4)
            | self.word(c, 5)
    }

    /// Whether square `s` holds some piece of colour index `c`.
    pub open spec fn occupied_by(&self, c: int, s: int) -> bool {
        exists|k: int| 0 <= k < 6 && #[trigger] self.pieces(c, k).contains(s)
    }

    /// Whether square `s` holds any piece.
    pub open spec fn occupied(&self, s: int) -> bool {
        self.occupied_by(0, s) || self.occupied_by(1, s)
    }

    /// The twelve piece sets are pairwise disjoint.
    pub open spec fn disjoint(&self) -> bool {
        forall|c1: int, k1: int, c2: int, k2: int, s: int|
            0 <= c1 < 2 && 0 <= k1 < 6 && 0 <= c2 < 2 && 0 <= k2 < 6 && (c1 != c2 || k1 != k2)
                && #[trigger] self.pieces(c1, k1).contains(s) ==> !#[trigger] self.pieces(
                c2,
                k2,
            ).contains(s)
    }

    /// The en-passant target, if any, is an empty square on the third or sixth rank.
    pub open spec fn en_passant_ok(&self) -> bool {
        match self.en_passant {
            Some(s) => ((16 <= s < 24) || (40 <= s < 48)) && !self.occupied(s as int),
            None => true,
        }
    }

    /// A well-formed position.
    pub open spec fn wf(&self) -> bool {
        self.disjoint() && self.en_passant_ok()
    }

    pub fn starting_position() -> (r: Board)
        ensures
            r.wf(),
            r.castling_rights == CastlingRights::all_spec(),
            r.en_passant.is_none(),
            r.turn == Color::White,
            r.word(0, 0) == 8 && r.word(0, 1) == 16 && r.word(0, 2) == 129 && r.word(0, 3) == 36
                && r.word(0, 4) == 66 && r.word(0, 5) == 65280,
            r.word(1, 0) == 576460752303423488 && r.word(1, 1) == 1152921504606846976
                && r.word(1, 2) == 9295429630892703744 && r.word(1, 3) == 2594073385365405696
                && r.word(1, 4) == 4755801206503243776 && r.word(1, 5) == 71776119061217280,
    {
        let r = Board {
            bitboards: [
                [
                    BitBoard(8),
                    BitBoard(16),
                    BitBoard(129),
                    BitBoard(36),
                    BitBoard(66),
                    BitBoard(65280),
                ],
                [
                    BitBoard(576460752303423488),
                    BitBoard(1152921504606846976),
                    BitBoard(9295429630892703744),
                    BitBoard(2594073385365405696),
                    BitBoard(4755801206503243776),
                    BitBoard(71776119061217280),
                ],
            ],
            castling_rights: CastlingRights::all(),
            en_passant: None,
            turn: Color::White,
        };
        proof {
            lemma_start_disjoint(r);
        }
        r
    }
}

/// At most one of the starting words holds any given square.
proof fn lemma_start_squares(s: u64)
    by (bit_vector)
    requires
        s < 64,
    ensures
        ((8u64 >> s) & 1u64)
            + ((16u64 >> s) & 1u64)
            + ((129u64 >> s) & 1u64)
            + ((36u64 >> s) & 1u64)
            + ((66u64 >> s) & 1u64)
            + ((65280u64 >> s) & 1u64)
            + ((576460752303423488u64 >> s) & 1u64)
            + ((1152921504606846976u64 >> s) & 1u64)
            + ((9295429630892703744u64 >> s) & 1u64)
            + ((2594073385365405696u64 >> s) & 1u64)
            + ((4755801206503243776u64 >> s) & 1u64)
            + ((71776119061217280u64 >> s) & 1u64) <= 1u64,
{
}

proof fn lemma_start_disjoint(r: Board)
    requires
        r.word(0, 0) == 8 && r.word(0, 1) == 16 && r.word(0, 2) == 129 && r.word(0, 3) == 36
            && r.word(0, 4) == 66 && r.word(0, 5) == 65280,
        r.word(1, 0) == 576460752303423488 && r.word(1, 1) == 1152921504606846976
            && r.word(1, 2) == 9295429630892703744 && r.word(1, 3) == 2594073385365405696
            && r.word(1, 4) == 4755801206503243776 && r.word(1, 5) == 71776119061217280,
    ensures
        r.disjoint(),
{
    assert forall|c1: int, k1: int, c2: int, k2: int, s: int|
        0 <= c1 < 2 && 0 <= k1 < 6 && 0 <= c2 < 2 && 0 <= k2 < 6 && (c1 != c2 || k1 != k2)
            && #[trigger] r.pieces(c1, k1).contains(s) implies !#[trigger] r.pieces(c2, k2).contains(s) by {
        let u = s as u64;
        lemma_start_squares(u);
        assert(0 <= s < 64);
        assert(c1 == 0 || c1 == 1);
        assert(c2 == 0 || c2 == 1);
        assert(k1 == 0 || k1 == 1 || k1 == 2 || k1 == 3 || k1 == 4 || k1 == 5);
        assert(k2 == 0 || k2 == 1 || k2 == 2 || k2 == 3 || k2 == 4 || k2 == 5);
    }
}

impl CastlingRights {
    pub open spec fn all_spec() -> CastlingRights {
        CastlingRights {
            white_queenside: true,
            white_kingside: true,
            black_queenside: true,
            black_kingside: true,
        }
    }
}

impl Default for Board {
    /// The starting position.
    fn default() -> (r: Board)
        ensures
            r.turn == Color::White,
            r.en_passant.is_none(),
            r.castling_rights == CastlingRights::all_spec(),
            r.wf(),
            r.word(0, 0) == 8 && r.word(0, 1) == 16 && r.word(0, 2) == 129 && r.word(0, 3) == 36
                && r.word(0, 4) == 66 && r.word(0, 5) == 65280,
            r.word(1, 0) == 576460752303423488 && r.word(1, 1) == 1152921504606846976
                && r.word(1, 2) == 9295429630892703744 && r.word(1, 3) == 2594073385365405696
                && r.word(1, 4) == 4755801206503243776 && r.word(1, 5) == 71776119061217280,
    {
        Board::starting_position()
    }
}

} // verus!
