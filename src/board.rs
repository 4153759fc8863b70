//! Positions as twelve bitboards, the two sides, and moves.
use vstd::prelude::*;

verus! {

/// The side to move. White is the maximizing side and owns bitboards 0..6;
/// Black owns bitboards 6..12.
#[derive(Clone, Copy, Debug, PartialEq, Eq, Structural)]
pub enum Side {
    White,
    Black,
}

/// A move: source square, destination square, and the promotion letter
/// (`'q'`, `'r'`, `'b'` or `'n'`) when a pawn reaches the far rank.
pub type Move = (u8, u8, Option<char>);

/// Piece kinds within a side's block of six bitboards.
pub const PAWN: usize = 0;
pub const KNIGHT: usize = 1;
pub const BISHOP: usize = 2;
pub const ROOK: usize = 3;
pub const QUEEN: usize = 4;
pub const KING: usize = 5;

/// The side that moves after `side`.
pub open spec fn opponent(side: Side) -> Side {
    match side {
        Side::White => Side::Black,
        Side::Black => Side::White,
    }
}

/// Index of the first bitboard of `side`'s block.
pub open spec fn offset(side: Side) -> int {
    match side {
        Side::White => 0,
        Side::Black => 6,
    }
}

/// Whether bitboard `bb` has the bit of square `sq` set.
pub open spec fn is_set(bb: u64, sq: int) -> bool {
    0 <= sq < 64 && (bb >> (sq as u64)) & 1u64 == 1u64
}

/// The union of the six bitboards of `side`.
pub open spec fn side_bits(b: Seq<u64>, side: Side) -> u64 {
    let o = offset(side);
    b[o] | b[o + 1] | b[o + 2] | b[o + 3] | b[o + 4] | b[o + 5]
}

/// Whether some piece of `side` stands on `sq`.
pub open spec fn occupied_by(b: Seq<u64>, side: Side, sq: int) -> bool {
    exists|k: int| 0 <= k < 6 && #[trigger] is_set(b[offset(side) + k], sq)
}

/// Whether some piece of either side stands on `sq`.
pub open spec fn occupied(b: Seq<u64>, sq: int) -> bool {
    exists|k: int| 0 <= k < 12 && #[trigger] is_set(b[k], sq)
}

/// Twelve bitboards, no square held by two of them.
pub open spec fn well_formed(b: Seq<u64>) -> bool {
    &&& b.len() == 12
    &&& forall|i: int, j: int, sq: int|
        0 <= i < 12 && 0 <= j < 12 && #[trigger] is_set(b[i], sq) && #[trigger] is_set(b[j], sq) ==> i == j
}

/// The standard starting position.
pub open spec fn start_position() -> Seq<u64> {
    seq![
        0xff00u64,
        0x42u64,
        0x24u64,
        0x81u64,
        0x8u64,
        0x10u64,
        0x00ff_0000_0000_0000u64,
        0x4200_0000_0000_0000u64,
        0x2400_0000_0000_0000u64,
        0x8100_0000_0000_0000u64,
        0x0800_0000_0000_0000u64,
        0x1000_0000_0000_0000u64,
    ]
}

/// Two bitboards that share a square have a common bit.
proof fn lemma_shared_square(a: u64, c: u64, sq: int)
    requires
        0 <= sq < 64,
        is_set(a, sq),
        is_set(c, sq),
    ensures
        a & c != 0u64,
{
    let s = sq as u64;
    assert((a >> s) & 1u64 == 1u64 && (c >> s) & 1u64 == 1u64 ==> a & c != 0u64) by (bit_vector);
}

/// No square of the starting position holds two pieces.
pub proof fn lemma_start_well_formed()
    ensures
        well_formed(start_position()),
{
    let b = start_position();
    assert(b[0] == 0xff00u64);
    assert(b[1] == 0x42u64);
    assert(b[2] == 0x24u64);
    assert(b[3] == 0x81u64);
    assert(b[4] == 0x8u64);
    assert(b[5] == 0x10u64);
    assert(b[6] == 0x00ff_0000_0000_0000u64);
    assert(b[7] == 0x4200_0000_0000_0000u64);
    assert(b[8] == 0x2400_0000_0000_0000u64);
    assert(b[9] == 0x8100_0000_0000_0000u64);
    assert(b[10] == 0x0800_0000_0000_0000u64);
    assert(b[11] == 0x1000_0000_0000_0000u64);
    assert(
        0xff00u64 & 0x42u64 == 0u64
            && 0xff00u64 & 0x24u64 == 0u64
            && 0xff00u64 & 0x81u64 == 0u64
            && 0xff00u64 & 0x8u64 == 0u64
            && 0xff00u64 & 0x10u64 == 0u64
            && 0xff00u64 & 0x00ff_0000_0000_0000u64 == 0u64
            && 0xff00u64 & 0x4200_0000_0000_0000u64 == 0u64
            && 0xff00u64 & 0x2400_0000_0000_0000u64 == 0u64
            && 0xff00u64 & 0x8100_0000_0000_0000u64 == 0u64
            && 0xff00u64 & 0x0800_0000_0000_0000u64 == 0u64
            && 0xff00u64 & 0x1000_0000_0000_0000u64 == 0u64
            && 0x42u64 & 0xff00u64 == 0u64
            && 0x42u64 & 0x24u64 == 0u64
            && 0x42u64 & 0x81u64 == 0u64
            && 0x42u64 & 0x8u64 == 0u64
            && 0x42u64 & 0x10u64 == 0u64
            && 0x42u64 & 0x00ff_0000_0000_0000u64 == 0u64
            && 0x42u64 & 0x4200_0000_0000_0000u64 == 0u64
            && 0x42u64 & 0x2400_0000_0000_0000u64 == 0u64
            && 0x42u64 & 0x8100_0000_0000_0000u64 == 0u64
            && 0x42u64 & 0x0800_0000_0000_0000u64 == 0u64
            && 0x42u64 & 0x1000_0000_0000_0000u64 == 0u64
            && 0x24u64 & 0xff00u64 == 0u64
            && 0x24u64 & 0x42u64 == 0u64
            && 0x24u64 & 0x81u64 == 0u64
            && 0x24u64 & 0x8u64 == 0u64
            && 0x24u64 & 0x10u64 == 0u64
            && 0x24u64 & 0x00ff_0000_0000_0000u64 == 0u64
            && 0x24u64 & 0x4200_0000_0000_0000u64 == 0u64
            && 0x24u64 & 0x2400_0000_0000_0000u64 == 0u64
            && 0x24u64 & 0x8100_0000_0000_0000u64 == 0u64
            && 0x24u64 & 0x0800_0000_0000_0000u64 == 0u64
            && 0x24u64 & 0x1000_0000_0000_0000u64 == 0u64
            && 0x81u64 & 0xff00u64 == 0u64
            && 0x81u64 & 0x42u64 == 0u64
            && 0x81u64 & 0x24u64 == 0u64
            && 0x81u64 & 0x8u64 == 0u64
            && 0x81u64 & 0x10u64 == 0u64
            && 0x81u64 & 0x00ff_0000_0000_0000u64 == 0u64
            && 0x81u64 & 0x4200_0000_0000_0000u64 == 0u64
            && 0x81u64 & 0x2400_0000_0000_0000u64 == 0u64
            && 0x81u64 & 0x8100_0000_0000_0000u64 == 0u64
            && 0x81u64 & 0x0800_0000_0000_0000u64 == 0u64
            && 0x81u64 & 0x1000_0000_0000_0000u64 == 0u64
            && 0x8u64 & 0xff00u64 == 0u64
            && 0x8u64 & 0x42u64 == 0u64
            && 0x8u64 & 0x24u64 == 0u64
            && 0x8u64 & 0x81u64 == 0u64
            && 0x8u64 & 0x10u64 == 0u64
            && 0x8u64 & 0x00ff_0000_0000_0000u64 == 0u64
            && 0x8u64 & 0x4200_0000_0000_0000u64 == 0u64
            && 0x8u64 & 0x2400_0000_0000_0000u64 == 0u64
            && 0x8u64 & 0x8100_0000_0000_0000u64 == 0u64
            && 0x8u64 & 0x0800_0000_0000_0000u64 == 0u64
            && 0x8u64 & 0x1000_0000_0000_0000u64 == 0u64
            && 0x10u64 & 0xff00u64 == 0u64
            && 0x10u64 & 0x42u64 == 0u64
            && 0x10u64 & 0x24u64 == 0u64
            && 0x10u64 & 0x81u64 == 0u64
            && 0x10u64 & 0x8u64 == 0u64
            && 0x10u64 & 0x00ff_0000_0000_0000u64 == 0u64
            && 0x10u64 & 0x4200_0000_0000_0000u64 == 0u64
            && 0x10u64 & 0x2400_0000_0000_0000u64 == 0u64
            && 0x10u64 & 0x8100_0000_0000_0000u64 == 0u64
            && 0x10u64 & 0x0800_0000_0000_0000u64 == 0u64
            && 0x10u64 & 0x1000_0000_0000_0000u64 == 0u64
            && 0x00ff_0000_0000_0000u64 & 0xff00u64 == 0u64
            && 0x00ff_0000_0000_0000u64 & 0x42u64 == 0u64
            && 0x00ff_0000_0000_0000u64 & 0x24u64 == 0u64
            && 0x00ff_0000_0000_0000u64 & 0x81u64 == 0u64
            && 0x00ff_0000_0000_0000u64 & 0x8u64 == 0u64
            && 0x00ff_0000_0000_0000u64 & 0x10u64 == 0u64
            && 0x00ff_0000_0000_0000u64 & 0x4200_0000_0000_0000u64 == 0u64
            && 0x00ff_0000_0000_0000u64 & 0x2400_0000_0000_0000u64 == 0u64
            && 0x00ff_0000_0000_0000u64 & 0x8100_0000_0000_0000u64 == 0u64
            && 0x00ff_0000_0000_0000u64 & 0x0800_0000_0000_0000u64 == 0u64
            && 0x00ff_0000_0000_0000u64 & 0x1000_0000_0000_0000u64 == 0u64
            && 0x4200_0000_0000_0000u64 & 0xff00u64 == 0u64
            && 0x4200_0000_0000_0000u64 & 0x42u64 == 0u64
            && 0x4200_0000_0000_0000u64 & 0x24u64 == 0u64
            && 0x4200_0000_0000_0000u64 & 0x81u64 == 0u64
            && 0x4200_0000_0000_0000u64 & 0x8u64 == 0u64
            && 0x4200_0000_0000_0000u64 & 0x10u64 == 0u64
            && 0x4200_0000_0000_0000u64 & 0x00ff_0000_0000_0000u64 == 0u64
            && 0x4200_0000_0000_0000u64 & 0x2400_0000_0000_0000u64 == 0u64
            && 0x4200_0000_0000_0000u64 & 0x8100_0000_0000_0000u64 == 0u64
            && 0x4200_0000_0000_0000u64 & 0x0800_0000_0000_0000u64 == 0u64
            && 0x4200_0000_0000_0000u64 & 0x1000_0000_0000_0000u64 == 0u64
            && 0x2400_0000_0000_0000u64 & 0xff00u64 == 0u64
            && 0x2400_0000_0000_0000u64 & 0x42u64 == 0u64
            && 0x2400_0000_0000_0000u64 & 0x24u64 == 0u64
            && 0x2400_0000_0000_0000u64 & 0x81u64 == 0u64
            && 0x2400_0000_0000_0000u64 & 0x8u64 == 0u64
            && 0x2400_0000_0000_0000u64 & 0x10u64 == 0u64
            && 0x2400_0000_0000_0000u64 & 0x00ff_0000_0000_0000u64 == 0u64
            && 0x2400_0000_0000_0000u64 & 0x4200_0000_0000_0000u64 == 0u64
            && 0x2400_0000_0000_0000u64 & 0x8100_0000_0000_0000u64 == 0u64
            && 0x2400_0000_0000_0000u64 & 0x0800_0000_0000_0000u64 == 0u64
            && 0x2400_0000_0000_0000u64 & 0x1000_0000_0000_0000u64 == 0u64
            && 0x8100_0000_0000_0000u64 & 0xff00u64 == 0u64
            && 0x8100_0000_0000_0000u64 & 0x42u64 == 0u64
            && 0x8100_0000_0000_0000u64 & 0x24u64 == 0u64
            && 0x8100_0000_0000_0000u64 & 0x81u64 == 0u64
            && 0x8100_0000_0000_0000u64 & 0x8u64 == 0u64
            && 0x8100_0000_0000_0000u64 & 0x10u64 == 0u64
            && 0x8100_0000_0000_0000u64 & 0x00ff_0000_0000_0000u64 == 0u64
            && 0x8100_0000_0000_0000u64 & 0x4200_0000_0000_0000u64 == 0u64
            && 0x8100_0000_0000_0000u64 & 0x2400_0000_0000_0000u64 == 0u64
            && 0x8100_0000_0000_0000u64 & 0x0800_0000_0000_0000u64 == 0u64
            && 0x8100_0000_0000_0000u64 & 0x1000_0000_0000_0000u64 == 0u64
            && 0x0800_0000_0000_0000u64 & 0xff00u64 == 0u64
            && 0x0800_0000_0000_0000u64 & 0x42u64 == 0u64
            && 0x0800_0000_0000_0000u64 & 0x24u64 == 0u64
            && 0x0800_0000_0000_0000u64 & 0x81u64 == 0u64
            && 0x0800_0000_0000_0000u64 & 0x8u64 == 0u64
            && 0x0800_0000_0000_0000u64 & 0x10u64 == 0u64
            && 0x0800_0000_0000_0000u64 & 0x00ff_0000_0000_0000u64 == 0u64
            && 0x0800_0000_0000_0000u64 & 0x4200_0000_0000_0000u64 == 0u64
            && 0x0800_0000_0000_0000u64 & 0x2400_0000_0000_0000u64 == 0u64
            && 0x0800_0000_0000_0000u64 & 0x8100_0000_0000_0000u64 == 0u64
            && 0x0800_0000_0000_0000u64 & 0x1000_0000_0000_0000u64 == 0u64
            && 0x1000_0000_0000_0000u64 & 0xff00u64 == 0u64
            && 0x1000_0000_0000_0000u64 & 0x42u64 == 0u64
            && 0x1000_0000_0000_0000u64 & 0x24u64 == 0u64
            && 0x1000_0000_0000_0000u64 & 0x81u64 == 0u64
            && 0x1000_0000_0000_0000u64 & 0x8u64 == 0u64
            && 0x1000_0000_0000_0000u64 & 0x10u64 == 0u64
            && 0x1000_0000_0000_0000u64 & 0x00ff_0000_0000_0000u64 == 0u64
            && 0x1000_0000_0000_0000u64 & 0x4200_0000_0000_0000u64 == 0u64
            && 0x1000_0000_0000_0000u64 & 0x2400_0000_0000_0000u64 == 0u64
            && 0x1000_0000_0000_0000u64 & 0x8100_0000_0000_0000u64 == 0u64
            && 0x1000_0000_0000_0000u64 & 0x0800_0000_0000_0000u64 == 0u64
    ) by (bit_vector);
    assert forall|i: int, j: int, sq: int|
        0 <= i < 12 && 0 <= j < 12 && #[trigger] is_set(b[i], sq) && #[trigger] is_set(b[j], sq)
            implies i == j by {
        if i != j {
            lemma_shared_square(b[i], b[j], sq);
            assert(0 <= i < 12 && 0 <= j < 12);
            assert(i == 0 || i == 1 || i == 2 || i == 3 || i == 4 || i == 5 || i == 6 || i == 7 || i
                == 8 || i == 9 || i == 10 || i == 11);
            assert(j == 0 || j == 1 || j == 2 || j == 3 || j == 4 || j == 5 || j == 6 || j == 7 || j
                == 8 || j == 9 || j == 10 || j == 11);
        }
    }
}

/// The side that moves after `side`.
pub fn other(side: Side) -> (r: Side)
    ensures
        r == opponent(side),
{
    match side {
        Side::White => Side::Black,
        Side::Black => Side::White,
    }
}

/// The standard starting position as twelve bitboards.
pub fn initialize_board() -> (r: [u64; 12])
    ensures
        r@ == start_position(),
        well_formed(r@),
{
    proof {
        lemma_start_well_formed();
    }
    let r: [u64; 12] = [
        0xff00u64,
        0x42u64,
        0x24u64,
        0x81u64,
        0x8u64,
        0x10u64,
        0x00ff_0000_0000_0000u64,
        0x4200_0000_0000_0000u64,
        0x2400_0000_0000_0000u64,
        0x8100_0000_0000_0000u64,
        0x0800_0000_0000_0000u64,
        0x1000_0000_0000_0000u64,
    ];
    assert(r@ =~= start_position());
    r
}

/// Whether the bit of square `sq` is set in `bb`.
pub fn test_bit(bb: u64, sq: u8) -> (r: bool)
    requires
        sq < 64,
    ensures
        r == is_set(bb, sq as int),
{
    (bb >> (sq as u64)) & 1u64 == 1u64
}

/// The union of the six bitboards of `side`.
pub fn side_union(boards: &[u64; 12], side: Side) -> (r: u64)
    ensures
        r == side_bits(boards@, side),
{
    let o: usize = match side {
        Side::White => 0,
        Side::Black => 6,
    };
    boards[o] | boards[o + 1] | boards[o + 2] | boards[o + 3] | boards[o + 4] | boards[o + 5]
}

/// A square is in a union of six bitboards exactly when it is in one of them.
pub proof fn lemma_union6(a: u64, b: u64, c: u64, d: u64, e: u64, f: u64, sq: int)
    requires
        0 <= sq < 64,
    ensures
        is_set(a | b | c | d | e | f, sq) <==> (is_set(a, sq) || is_set(b, sq) || is_set(c, sq) || is_set(d, sq)
            || is_set(e, sq) || is_set(f, sq)),
{
    let s = sq as u64;
    assert(((a | b | c | d | e | f) >> s) & 1u64 == 1u64 <==> ((a >> s) & 1u64 == 1u64 || (b >> s)
        & 1u64 == 1u64 || (c >> s) & 1u64 == 1u64 || (d >> s) & 1u64 == 1u64 || (e >> s) & 1u64
        == 1u64 || (f >> s) & 1u64 == 1u64)) by (bit_vector);
}

/// Membership in a side's union is occupation by that side.
pub proof fn lemma_side_bits(b: Seq<u64>, side: Side, sq: int)
    requires
        b.len() == 12,
        0 <= sq < 64,
    ensures
        is_set(side_bits(b, side), sq) <==> occupied_by(b, side, sq),
{
    let o = offset(side);
    lemma_union6(b[o], b[o + 1], b[o + 2], b[o + 3], b[o + 4], b[o + 5], sq);
    if is_set(b[o], sq) {
        assert(is_set(b[o + 0], sq));
    }
    if occupied_by(b, side, sq) {
        let k = choose|k: int| 0 <= k < 6 && #[trigger] is_set(b[offset(side) + k], sq);
        assert(k == 0 || k == 1 || k == 2 || k == 3 || k == 4 || k == 5);
    }
}

} // verus!
