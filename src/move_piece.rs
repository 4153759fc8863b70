//! Applying a move to a position.
use vstd::prelude::*;
use crate::board::{is_set, occupied, offset, test_bit, well_formed, Move, Side};

verus! {

/// Why a move could not be applied.
#[derive(Clone, Copy, Debug, PartialEq, Eq, Structural)]
pub enum MoveError {
    /// No piece stands on the move's source square.
    EmptySquare,
    /// The move text is not two square names and an optional promotion
    /// letter.
    Malformed,
}

/// The first bitboard, from index `i` on, that holds `sq`.
pub open spec fn piece_index_from(b: Seq<u64>, sq: int, i: int) -> Option<int>
    decreases 12 - i,
{
    if i >= 12 {
        None
    } else if is_set(b[i], sq) {
        Some(i)
    } else {
        piece_index_from(b, sq, i + 1)
    }
}

/// The bitboard that holds the piece on `sq`, if any.
pub open spec fn piece_at(b: Seq<u64>, sq: int) -> Option<int> {
    piece_index_from(b, sq, 0)
}

/// The piece kind within a block that a promotion letter names: queen,
/// rook, bishop or knight, and a pawn for any other letter.
pub open spec fn promotion_kind(c: char) -> int {
    if c == 'q' {
        4
    } else if c == 'r' {
        3
    } else if c == 'b' {
        2
    } else if c == 'n' {
        1
    } else {
        0
    }
}

/// The bitboard the piece from bitboard `i` occupies after the move: the
/// same one, or the promoted kind of the same side.
pub open spec fn destination_index(i: int, promotion: Option<char>) -> int {
    match promotion {
        None => i,
        Some(c) => (i / 6) * 6 + promotion_kind(c),
    }
}

/// `bb` without square `sq`.
pub open spec fn lift(bb: u64, sq: int) -> u64 {
    bb & !(1u64 << (sq as u64))
}

/// `bb` with square `sq`.
pub open spec fn put(bb: u64, sq: int) -> u64 {
    bb | (1u64 << (sq as u64))
}

/// Bitboard `j` after the piece of bitboard `i` moves from `from` to `to`
/// and lands in bitboard `p`: `to` belongs to `p` alone.
pub open spec fn moved(b: Seq<u64>, i: int, p: int, from: int, to: int, j: int) -> u64 {
    let x = if j == i { lift(b[j], from) } else { b[j] };
    if j == p { put(x, to) } else { lift(x, to) }
}

/// The position after move `m`; unchanged when no piece stands on its
/// source square.
pub open spec fn apply_move(b: Seq<u64>, m: Move) -> Seq<u64> {
    match piece_at(b, m.0 as int) {
        None => b,
        Some(i) => Seq::new(
            12,
            |j: int| moved(b, i, destination_index(i, m.2), m.0 as int, m.1 as int, j),
        ),
    }
}

/// The en-passant target after move `m`: the square a pawn passed over in
/// a two-square advance, else none. A move that cannot be applied leaves
/// `ep` as it was.
pub open spec fn en_passant_after(b: Seq<u64>, m: Move, ep: Option<u8>) -> Option<u8> {
    match piece_at(b, m.0 as int) {
        None => ep,
        Some(i) => if i % 6 == 0 && m.1 as int == m.0 + 16 {
            Some((m.0 + 8) as u8)
        } else if i % 6 == 0 && m.1 + 16 == m.0 as int {
            Some((m.0 - 8) as u8)
        } else {
            None
        },
    }
}

/// What lifting and putting a square do to each square.
pub proof fn lemma_lift_put(bb: u64, s: int, t: int)
    requires
        0 <= s < 64,
        0 <= t < 64,
    ensures
        is_set(lift(bb, s), t) <==> is_set(bb, t) && t != s,
        is_set(put(bb, s), t) <==> is_set(bb, t) || t == s,
{
    let s64 = s as u64;
    let t64 = t as u64;
    assert(((bb & !(1u64 << s64)) >> t64) & 1u64 == 1u64 <==> (bb >> t64) & 1u64 == 1u64 && t64
        != s64) by (bit_vector)
        requires
            s64 < 64,
            t64 < 64,
    ;
    assert(((bb | (1u64 << s64)) >> t64) & 1u64 == 1u64 <==> (bb >> t64) & 1u64 == 1u64 || t64
        == s64) by (bit_vector)
        requires
            s64 < 64,
            t64 < 64,
    ;
}

/// The index of the first bitboard that holds `sq`, if any.
fn find_piece(boards: &[u64; 12], sq: u8) -> (r: Option<usize>)
    requires
        sq < 64,
    ensures
        r matches Some(i) ==> i < 12 && piece_at(boards@, sq as int) == Some(i as int),
        r is None ==> piece_at(boards@, sq as int) is None,
{
    let mut i: usize = 0;
    while i < 12
        invariant
            i <= 12,
            sq < 64,
            piece_at(boards@, sq as int) == piece_index_from(boards@, sq as int, i as int),
        decreases 12 - i,
    {
        if test_bit(boards[i], sq) {
            return Some(i);
        }
        i += 1;
    }
    None
}

/// Applies move `m`: the piece on the source square leaves it, lands on the
/// destination square (as the promoted kind when a promotion is given), and
/// any other piece there is captured. The en-passant target is set after a
/// two-square pawn advance and cleared after any other move. Fails, changing
/// nothing, when no piece stands on the source square.
pub fn move_piece(boards: &mut [u64; 12], m: Move, en_passant: &mut Option<u8>) -> (r: Result<
    (),
    MoveError,
>)
    requires
        m.0 < 64,
        m.1 < 64,
    ensures
        final(boards)@ == apply_move(old(boards)@, m),
        *final(en_passant) == en_passant_after(old(boards)@, m, *old(en_passant)),
        r is Ok <==> piece_at(old(boards)@, m.0 as int) is Some,
        r is Err ==> r == Err::<(), MoveError>(MoveError::EmptySquare),
        well_formed(old(boards)@) ==> well_formed(final(boards)@),
{
    proof {
        if well_formed(old(boards)@) {
            lemma_apply_well_formed(old(boards)@, m);
        }
    }
    let (from, to, promotion) = m;
    let ghost b = old(boards)@;
    let i = match find_piece(boards, from) {
        None => {
            return Err(MoveError::EmptySquare);
        },
        Some(i) => i,
    };
    *en_passant = None;
    if i % 6 == 0 {
        if to as i32 - from as i32 == 16 {
            *en_passant = Some(from + 8);
        } else if to as i32 - from as i32 == -16 {
            *en_passant = Some(from - 8);
        }
    }
    let p: usize = match promotion {
        None => i,
        Some(c) => {
            let k: usize = if c == 'q' {
                4
            } else if c == 'r' {
                3
            } else if c == 'b' {
                2
            } else if c == 'n' {
                1
            } else {
                0
            };
            (i / 6) * 6 + k
        },
    };
    let from_mask: u64 = 1u64 << (from as u64);
    let to_mask: u64 = 1u64 << (to as u64);
    boards[i] = boards[i] & !from_mask;
    let mut j: usize = 0;
    while j < 12
        invariant
            j <= 12,
            i < 12,
            p < 12,
            p as int == destination_index(i as int, promotion),
            from < 64,
            to < 64,
            from_mask == 1u64 << (from as u64),
            to_mask == 1u64 << (to as u64),
            boards@.len() == 12,
            b.len() == 12,
            forall|k: int|
                0 <= k < j ==> boards@[k] == moved(b, i as int, p as int, from as int, to as int, k),
            forall|k: int|
                j <= k < 12 ==> boards@[k] == (if k == i { lift(b[k], from as int) } else { b[k] }),
        decreases 12 - j,
    {
        if j == p {
            boards[j] = boards[j] | to_mask;
        } else {
            boards[j] = boards[j] & !to_mask;
        }
        j += 1;
    }
    assert(boards@ =~= apply_move(b, m));
    Ok(())
}


/// The first bitboard from index `k` on that holds `sq` is the first that
/// does, and none holds it when there is none.
proof fn lemma_piece_index_from(b: Seq<u64>, sq: int, k: int)
    requires
        0 <= k <= 12,
    ensures
        piece_index_from(b, sq, k) matches Some(i) ==> k <= i < 12 && is_set(b[i], sq) && forall|
            j: int,
        |
            k <= j < i ==> !is_set(#[trigger] b[j], sq),
        piece_index_from(b, sq, k) is None ==> forall|j: int|
            k <= j < 12 ==> !is_set(#[trigger] b[j], sq),
    decreases 12 - k,
{
    if k < 12 {
        lemma_piece_index_from(b, sq, k + 1);
    }
}

/// When bitboard `i` alone holds `sq`, the piece on `sq` is that of `i`.
proof fn lemma_piece_at_only(b: Seq<u64>, sq: int, i: int)
    requires
        0 <= i < 12,
        is_set(b[i], sq),
        forall|j: int| 0 <= j < 12 && j != i ==> !is_set(#[trigger] b[j], sq),
    ensures
        piece_at(b, sq) == Some(i),
{
    lemma_piece_index_from(b, sq, 0);
    if let Some(k) = piece_at(b, sq) {
        assert(k == i);
    }
}

/// On a well-formed position, the piece on an occupied square is that of
/// the one bitboard that holds it.
proof fn lemma_piece_at_well_formed(b: Seq<u64>, sq: int, i: int)
    requires
        well_formed(b),
        0 <= i < 12,
        is_set(b[i], sq),
    ensures
        piece_at(b, sq) == Some(i),
{
    assert forall|j: int| 0 <= j < 12 && j != i implies !is_set(#[trigger] b[j], sq) by {
        if is_set(b[j], sq) {
            assert(is_set(b[i], sq) && is_set(b[j], sq));
        }
    }
    lemma_piece_at_only(b, sq, i);
}

/// Squares of `moved`: `to` belongs to `p` alone, `from` leaves `i`, and
/// every other square stays where it was.
proof fn lemma_moved_squares(b: Seq<u64>, i: int, p: int, from: int, to: int, j: int, sq: int)
    requires
        0 <= from < 64,
        0 <= to < 64,
        0 <= sq < 64,
    ensures
        is_set(moved(b, i, p, from, to, j), sq) <==> if sq == to {
            j == p
        } else if sq == from {
            j != i && is_set(b[j], sq)
        } else {
            is_set(b[j], sq)
        },
{
    let x = if j == i { lift(b[j], from) } else { b[j] };
    lemma_lift_put(b[j], from, sq);
    lemma_lift_put(x, to, sq);
}

proof fn lemma_move_back_bits(x: u64, f: u64, t: u64)
    requires
        f < 64,
        t < 64,
        f != t,
        (x >> f) & 1u64 == 1u64,
        (x >> t) & 1u64 == 0u64,
    ensures
        (((x & !(1u64 << f)) | (1u64 << t)) & !(1u64 << t)) | (1u64 << f) == x,
{
    assert((((x & !(1u64 << f)) | (1u64 << t)) & !(1u64 << t)) | (1u64 << f) == x) by (bit_vector)
        requires
            f < 64,
            t < 64,
            f != t,
            (x >> f) & 1u64 == 1u64,
            (x >> t) & 1u64 == 0u64,
    ;
}

proof fn lemma_untouched_bits(y: u64, f: u64, t: u64)
    requires
        f < 64,
        t < 64,
        (y >> f) & 1u64 == 0u64,
        (y >> t) & 1u64 == 0u64,
    ensures
        (y & !(1u64 << t)) & !(1u64 << f) == y,
{
    assert((y & !(1u64 << t)) & !(1u64 << f) == y) by (bit_vector)
        requires
            f < 64,
            t < 64,
            (y >> f) & 1u64 == 0u64,
            (y >> t) & 1u64 == 0u64,
    ;
}

/// A bit that is not set reads as zero.
proof fn lemma_bit_clear(x: u64, s: u64)
    requires
        s < 64,
        !((x >> s) & 1u64 == 1u64),
    ensures
        (x >> s) & 1u64 == 0u64,
{
    assert(!((x >> s) & 1u64 == 1u64) ==> (x >> s) & 1u64 == 0u64) by (bit_vector);
}

/// Applying a move keeps every square held by at most one bitboard.
pub proof fn lemma_apply_well_formed(b: Seq<u64>, m: Move)
    requires
        well_formed(b),
        m.0 < 64,
        m.1 < 64,
    ensures
        well_formed(apply_move(b, m)),
{
    lemma_piece_index_from(b, m.0 as int, 0);
    if let Some(i) = piece_at(b, m.0 as int) {
        let p = destination_index(i, m.2);
        let a = apply_move(b, m);
        assert forall|j1: int, j2: int, sq: int|
            0 <= j1 < 12 && 0 <= j2 < 12 && #[trigger] is_set(a[j1], sq) && #[trigger] is_set(
                a[j2],
                sq,
            ) implies j1 == j2 by {
            lemma_moved_squares(b, i, p, m.0 as int, m.1 as int, j1, sq);
            lemma_moved_squares(b, i, p, m.0 as int, m.1 as int, j2, sq);
            if sq == m.0 as int && sq != m.1 as int {
                assert(is_set(b[i], sq) && is_set(b[j1], sq));
            }
            if sq != m.0 as int && sq != m.1 as int {
                assert(is_set(b[j1], sq) && is_set(b[j2], sq));
            }
        }
    }
}

/// On a well-formed position, moving a piece to an empty square without
/// promotion and then moving it back restores every bitboard.
pub proof fn lemma_move_round_trip(b: Seq<u64>, from: u8, to: u8)
    requires
        well_formed(b),
        from < 64,
        to < 64,
        from != to,
        occupied(b, from as int),
        !occupied(b, to as int),
    ensures
        apply_move(apply_move(b, (from, to, None)), (to, from, None)) == b,
{
    let f = from as int;
    let t = to as int;
    let i = choose|k: int| 0 <= k < 12 && #[trigger] is_set(b[k], f);
    lemma_piece_at_well_formed(b, f, i);
    let b1 = apply_move(b, (from, to, None));
    assert forall|j: int| 0 <= j < 12 implies (is_set(#[trigger] b1[j], t) <==> j == i) by {
        lemma_moved_squares(b, i, i, f, t, j, t);
    }
    lemma_piece_at_only(b1, t, i);
    let b2 = apply_move(b1, (to, from, None));
    assert forall|j: int| 0 <= j < 12 implies #[trigger] b2[j] == b[j] by {
        assert(!is_set(b[j], t));
        lemma_bit_clear(b[j], to as u64);
        if j == i {
            lemma_move_back_bits(b[j], from as u64, to as u64);
        } else {
            if is_set(b[j], f) {
                assert(is_set(b[i], f) && is_set(b[j], f));
            }
            lemma_bit_clear(b[j], from as u64);
            lemma_untouched_bits(b[j], from as u64, to as u64);
        }
    }
    assert(b2 =~= b);
}

/// Applying a promotion of a pawn of `side` removes the pawn from its
/// square and leaves the destination held by exactly one bitboard: the
/// promoted kind of `side`.
pub proof fn lemma_promotion_applied(b: Seq<u64>, side: Side, from: u8, to: u8, c: char)
    requires
        well_formed(b),
        from < 64,
        to < 64,
        from != to,
        is_set(b[offset(side)], from as int),
        c == 'q' || c == 'r' || c == 'b' || c == 'n',
    ensures
        forall|j: int| 0 <= j < 12 ==> !is_set(#[trigger] apply_move(b, (from, to, Some(c)))[j], from as int),
        forall|j: int|
            0 <= j < 12 ==> (is_set(#[trigger] apply_move(b, (from, to, Some(c)))[j], to as int)
                <==> j == offset(side) + promotion_kind(c)),
        1 <= promotion_kind(c) <= 4,
{
    let o = offset(side);
    lemma_piece_at_well_formed(b, from as int, o);
    let p = destination_index(o, Some(c));
    assert(p == o + promotion_kind(c));
    let a = apply_move(b, (from, to, Some(c)));
    assert forall|j: int| 0 <= j < 12 implies !is_set(#[trigger] a[j], from as int) by {
        lemma_moved_squares(b, o, p, from as int, to as int, j, from as int);
        if j != o && is_set(b[j], from as int) {
            assert(is_set(b[o], from as int) && is_set(b[j], from as int));
        }
    }
    assert forall|j: int| 0 <= j < 12 implies (is_set(#[trigger] a[j], to as int) <==> j == p) by {
        lemma_moved_squares(b, o, p, from as int, to as int, j, to as int);
    }
}

} // verus!
