//! Material evaluation.
use vstd::prelude::*;
use crate::board::{is_set, test_bit};

verus! {

/// The number of squares below `n` set in `bb`.
pub open spec fn count_below(bb: u64, n: int) -> int
    decreases n,
{
    if n <= 0 {
        0
    } else {
        count_below(bb, n - 1) + if is_set(bb, n - 1) {
            1int
        } else {
            0int
        }
    }
}

/// The number of pieces on bitboard `bb`.
pub open spec fn population(bb: u64) -> int {
    count_below(bb, 64)
}

/// The material value of a piece kind other than the king.
pub open spec fn piece_value(kind: int) -> int {
    if kind == 0 {
        1
    } else if kind == 1 || kind == 2 {
        3
    } else if kind == 3 {
        5
    } else {
        9
    }
}

/// White's material lead over Black in the first `n` piece kinds.
pub open spec fn material(b: Seq<u64>, n: int) -> int
    decreases n,
{
    if n <= 0 {
        0
    } else {
        material(b, n - 1) + piece_value(n - 1) * (population(b[n - 1]) - population(b[n + 5]))
    }
}

/// The material score of a position: pawns, knights, bishops, rooks and
/// queens, positive when White is ahead.
pub open spec fn evaluation(b: Seq<u64>) -> int {
    material(b, 5)
}

/// The position with the two sides' blocks of bitboards exchanged.
pub open spec fn swap_sides(b: Seq<u64>) -> Seq<u64> {
    Seq::new(12, |j: int| if j < 6 { b[j + 6] } else { b[j - 6] })
}

/// A count of squares is at most the number of squares counted.
proof fn lemma_count_bounds(bb: u64, n: int)
    requires
        0 <= n,
    ensures
        0 <= count_below(bb, n) <= n,
    decreases n,
{
    if n > 0 {
        lemma_count_bounds(bb, n - 1);
    }
}

/// The number of pieces on `bb`.
fn population_count(bb: u64) -> (r: i32)
    ensures
        r == population(bb),
        0 <= r <= 64,
{
    let mut count: i32 = 0;
    let mut sq: u8 = 0;
    while sq < 64
        invariant
            sq <= 64,
            count == count_below(bb, sq as int),
            0 <= count <= sq,
        decreases 64 - sq,
    {
        if test_bit(bb, sq) {
            count += 1;
        }
        sq += 1;
    }
    count
}

/// The material score of a position: the sum over pawns, knights, bishops,
/// rooks and queens (worth 1, 3, 3, 5 and 9) of the piece's value times
/// White's count less Black's count. The kings are not counted.
pub fn evaluate(boards: &[u64; 12]) -> (r: i32)
    ensures
        r == evaluation(boards@),
        -2880 <= r <= 2880,
{
    let values: [i32; 5] = [1, 3, 3, 5, 9];
    let mut score: i32 = 0;
    let mut i: usize = 0;
    while i < 5
        invariant
            i <= 5,
            values@ == seq![1i32, 3i32, 3i32, 5i32, 9i32],
            score == material(boards@, i as int),
            -576 * i <= score <= 576 * i,
        decreases 5 - i,
    {
        let white = population_count(boards[i]);
        let black = population_count(boards[i + 6]);
        let v = values[i];
        assert(v == piece_value(i as int));
        assert(-576 <= v * (white - black) <= 576) by (nonlinear_arith)
            requires
                1 <= v <= 9,
                -64 <= white - black <= 64,
        ;
        score = score + v * (white - black);
        i += 1;
    }
    score
}

/// Exchanging the two sides' pieces negates the material of each kind.
proof fn lemma_material_swap(b: Seq<u64>, n: int)
    requires
        b.len() == 12,
        0 <= n <= 6,
    ensures
        material(swap_sides(b), n) == -material(b, n),
    decreases n,
{
    if n > 0 {
        lemma_material_swap(b, n - 1);
        let s = swap_sides(b);
        assert(s[n - 1] == b[n + 5]);
        assert(s[n + 5] == b[n - 1]);
        assert(piece_value(n - 1) * (population(s[n - 1]) - population(s[n + 5])) == -(piece_value(
            n - 1,
        ) * (population(b[n - 1]) - population(b[n + 5])))) by (nonlinear_arith)
            requires
                population(s[n - 1]) == population(b[n + 5]),
                population(s[n + 5]) == population(b[n - 1]),
        ;
    }
}

proof fn lemma_material_bounds(b: Seq<u64>, n: int)
    requires
        0 <= n <= 5,
    ensures
        -576 * n <= material(b, n) <= 576 * n,
    decreases n,
{
    if n > 0 {
        lemma_material_bounds(b, n - 1);
        lemma_count_bounds(b[n - 1], 64);
        lemma_count_bounds(b[n + 5], 64);
        let v = piece_value(n - 1);
        let w = population(b[n - 1]);
        let k = population(b[n + 5]);
        assert(-576 <= v * (w - k) <= 576) by (nonlinear_arith)
            requires
                1 <= v <= 9,
                -64 <= w - k <= 64,
        ;
    }
}

/// Every position's material score lies within 2880 of zero.
pub proof fn lemma_evaluation_bounds(b: Seq<u64>)
    ensures
        -2880 <= evaluation(b) <= 2880,
{
    lemma_material_bounds(b, 5);
}

/// Evaluation is antisymmetric: exchanging the two sides' bitboard blocks
/// negates the score.
pub proof fn lemma_evaluation_swap(b: Seq<u64>)
    requires
        b.len() == 12,
    ensures
        evaluation(swap_sides(b)) == -evaluation(b),
{
    lemma_material_swap(b, 5);
}

} // verus!
