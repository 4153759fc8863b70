//! Pseudo-legal move generation: moves that follow each piece's movement
//! rules, without regard to the safety of the mover's king.
use vstd::prelude::*;
use crate::board::{
    is_set, lemma_side_bits, lemma_union6, occupied_by, offset, well_formed, opponent, other, side_bits, side_union, test_bit, Move, Side, BISHOP, KING,
    KNIGHT, PAWN, ROOK,
};

verus! {

/// Whether `sq` is one of the 64 squares.
pub open spec fn on_board(sq: int) -> bool {
    0 <= sq < 64
}

/// The plain move from `from` to `to`.
pub open spec fn plain(from: int, to: int) -> Move {
    (from as u8, to as u8, None)
}

/// Every square occupied by either side.
pub open spec fn all_bits(b: Seq<u64>, side: Side) -> u64 {
    side_bits(b, side) | side_bits(b, opponent(side))
}

/// Whether a step of `d` from `cur` would cross the a- or h-file edge.
pub open spec fn wraps(cur: int, d: int) -> bool {
    ||| (d == -9 || d == 7 || d == -1) && cur % 8 == 0
    ||| (d == 9 || d == -7 || d == 1) && cur % 8 == 7
}

/// Distance between the files of two squares.
pub open spec fn file_distance(a: int, b: int) -> int {
    let d = a % 8 - b % 8;
    if d < 0 { -d } else { d }
}

/// A pawn's single step forward.
pub open spec fn forward(side: Side) -> int {
    match side {
        Side::White => 8,
        Side::Black => -8,
    }
}

/// A pawn's capture toward the a-file.
pub open spec fn left_capture(side: Side) -> int {
    match side {
        Side::White => 7,
        Side::Black => -9,
    }
}

/// A pawn's capture toward the h-file.
pub open spec fn right_capture(side: Side) -> int {
    match side {
        Side::White => 9,
        Side::Black => -7,
    }
}

/// The rank from which `side`'s pawns may advance two squares.
pub open spec fn on_start_rank(side: Side, sq: int) -> bool {
    match side {
        Side::White => 8 <= sq < 16,
        Side::Black => 48 <= sq < 56,
    }
}

/// The rank on which `side`'s pawns promote.
pub open spec fn on_far_rank(side: Side, sq: int) -> bool {
    match side {
        Side::White => 56 <= sq < 64,
        Side::Black => 0 <= sq < 8,
    }
}

/// The four promotions of a pawn moving from `from` to `to`.
pub open spec fn promotions(from: int, to: int) -> Seq<Move> {
    seq![
        (from as u8, to as u8, Some('q')),
        (from as u8, to as u8, Some('r')),
        (from as u8, to as u8, Some('b')),
        (from as u8, to as u8, Some('n')),
    ]
}

/// A pawn move to `to`: four promotions on the far rank, else one move.
pub open spec fn pawn_move_to(side: Side, from: int, to: int) -> Seq<Move> {
    if on_far_rank(side, to) {
        promotions(from, to)
    } else {
        seq![plain(from, to)]
    }
}

/// The forward moves of a pawn of `side` on `sq`.
pub open spec fn pawn_pushes(b: Seq<u64>, side: Side, sq: int) -> Seq<Move> {
    let f = sq + forward(side);
    let dbl = f + forward(side);
    if !on_board(f) || is_set(all_bits(b, side), f) {
        seq![]
    } else if on_far_rank(side, f) {
        promotions(sq, f)
    } else if on_start_rank(side, sq) && !is_set(all_bits(b, side), dbl) {
        seq![plain(sq, f), plain(sq, dbl)]
    } else {
        seq![plain(sq, f)]
    }
}

/// The capture of a pawn of `side` on `sq` by the step `d`, which is not
/// possible from the file `edge`.
pub open spec fn pawn_capture(b: Seq<u64>, side: Side, sq: int, d: int, edge: int) -> Seq<Move> {
    let t = sq + d;
    if sq % 8 == edge || !on_board(t) || !is_set(side_bits(b, opponent(side)), t) {
        seq![]
    } else {
        pawn_move_to(side, sq, t)
    }
}

/// All moves of a pawn of `side` on `sq`: pushes, then the capture toward
/// the a-file, then the capture toward the h-file.
pub open spec fn pawn_moves(b: Seq<u64>, side: Side, sq: int) -> Seq<Move> {
    pawn_pushes(b, side, sq) + pawn_capture(b, side, sq, left_capture(side), 0) + pawn_capture(
        b,
        side,
        sq,
        right_capture(side),
        7,
    )
}

/// The directions in which a piece kind moves, in generation order.
pub open spec fn directions(kind: int) -> Seq<i8> {
    if kind == KNIGHT {
        seq![-17i8, -15i8, -10i8, -6i8, 6i8, 10i8, 15i8, 17i8]
    } else if kind == BISHOP {
        seq![-9i8, -7i8, 7i8, 9i8]
    } else if kind == ROOK {
        seq![-8i8, -1i8, 1i8, 8i8]
    } else {
        seq![-9i8, -8i8, -7i8, -1i8, 1i8, 7i8, 8i8, 9i8]
    }
}

/// The moves of a sliding piece of `side` from `from`, continuing the ray
/// in direction `d` past `cur`: it stops before a friendly piece, on an
/// enemy piece, and at the edge of the board.
pub open spec fn ray(b: Seq<u64>, side: Side, from: int, cur: int, d: int) -> Seq<Move>
    decreases (if d > 0 { 64 - cur } else { cur }),
        when d != 0 && on_board(cur)
{
    let t = cur + d;
    if !on_board(t) || wraps(cur, d) || is_set(side_bits(b, side), t) {
        seq![]
    } else if is_set(side_bits(b, opponent(side)), t) {
        seq![plain(from, t)]
    } else {
        seq![plain(from, t)] + ray(b, side, from, t, d)
    }
}

/// The knight jump of `side` from `sq` by `d`.
pub open spec fn knight_jump(b: Seq<u64>, side: Side, sq: int, d: int) -> Seq<Move> {
    let t = sq + d;
    if !on_board(t) || file_distance(sq, t) > 2 || is_set(side_bits(b, side), t) {
        seq![]
    } else {
        seq![plain(sq, t)]
    }
}

/// The king step of `side` from `sq` by `d`.
pub open spec fn king_step(b: Seq<u64>, side: Side, sq: int, d: int) -> Seq<Move> {
    let t = sq + d;
    if !on_board(t) || wraps(sq, d) || is_set(side_bits(b, side), t) {
        seq![]
    } else {
        seq![plain(sq, t)]
    }
}

/// The moves of a non-pawn piece of kind `kind` on `sq` in direction `d`.
pub open spec fn direction_moves(b: Seq<u64>, side: Side, kind: int, sq: int, d: int) -> Seq<
    Move,
> {
    if kind == KNIGHT {
        knight_jump(b, side, sq, d)
    } else if kind == KING {
        king_step(b, side, sq, d)
    } else {
        ray(b, side, sq, sq, d)
    }
}

/// The moves of a non-pawn piece on `sq` along its first `n` directions.
pub open spec fn directions_moves(b: Seq<u64>, side: Side, kind: int, sq: int, n: int) -> Seq<
    Move,
>
    decreases n,
{
    if n <= 0 {
        seq![]
    } else {
        directions_moves(b, side, kind, sq, n - 1) + direction_moves(
            b,
            side,
            kind,
            sq,
            directions(kind)[n - 1] as int,
        )
    }
}

/// The moves of a piece of kind `kind` and side `side` standing on `sq`.
pub open spec fn piece_moves(b: Seq<u64>, side: Side, kind: int, sq: int) -> Seq<Move> {
    if kind == PAWN {
        pawn_moves(b, side, sq)
    } else {
        directions_moves(b, side, kind, sq, directions(kind).len() as int)
    }
}

/// The moves of `side`'s pieces of kind `kind` on the squares below `n`,
/// square by square.
pub open spec fn kind_moves(b: Seq<u64>, side: Side, kind: int, n: int) -> Seq<Move>
    decreases n,
{
    if n <= 0 {
        seq![]
    } else if is_set(b[offset(side) + kind], n - 1) {
        kind_moves(b, side, kind, n - 1) + piece_moves(b, side, kind, n - 1)
    } else {
        kind_moves(b, side, kind, n - 1)
    }
}

/// The moves of `side`'s pieces of the first `k` kinds, kind by kind.
pub open spec fn moves_of_kinds(b: Seq<u64>, side: Side, k: int) -> Seq<Move>
    decreases k,
{
    if k <= 0 {
        seq![]
    } else {
        moves_of_kinds(b, side, k - 1) + kind_moves(b, side, k - 1, 64)
    }
}

/// The pseudo-legal moves of `side`: pawns, knights, bishops, rooks,
/// queens, then the king.
pub open spec fn pseudo_moves(b: Seq<u64>, side: Side) -> Seq<Move> {
    moves_of_kinds(b, side, 6)
}


/// Whether `to` lies on the rank where `side`'s pawns promote.
fn is_far_rank(side: Side, to: i32) -> (r: bool)
    requires
        0 <= to < 64,
    ensures
        r == on_far_rank(side, to as int),
{
    match side {
        Side::White => to >= 56,
        Side::Black => to < 8,
    }
}

/// Appends the pawn move from `from` to `to`, fanned out into the four
/// promotions when `to` is on the far rank.
fn push_pawn_move(side: Side, from: u8, to: i32, moves: &mut Vec<Move>)
    requires
        from < 64,
        0 <= to < 64,
    ensures
        final(moves)@ == old(moves)@ + pawn_move_to(side, from as int, to as int),
{
    let t = to as u8;
    if is_far_rank(side, to) {
        moves.push((from, t, Some('q')));
        moves.push((from, t, Some('r')));
        moves.push((from, t, Some('b')));
        moves.push((from, t, Some('n')));
        assert(final(moves)@ =~= old(moves)@ + promotions(from as int, to as int));
    } else {
        moves.push((from, t, None));
        assert(final(moves)@ =~= old(moves)@ + seq![plain(from as int, to as int)]);
    }
}

/// Appends the pawn capture from `sq` by the step `d`, unless the pawn is on
/// the file `edge` or no enemy piece stands on the target.
fn add_pawn_capture(
    boards: &[u64; 12],
    side: Side,
    sq: u8,
    d: i32,
    edge: u8,
    enemies: u64,
    moves: &mut Vec<Move>,
)
    requires
        sq < 64,
        -9 <= d <= 9,
        enemies == side_bits(boards@, opponent(side)),
    ensures
        final(moves)@ == old(moves)@ + pawn_capture(boards@, side, sq as int, d as int, edge as int),
{
    let t = sq as i32 + d;
    if sq % 8 == edge || t < 0 || t >= 64 {
        assert(final(moves)@ =~= old(moves)@ + seq![]);
        return;
    }
    if !test_bit(enemies, t as u8) {
        assert(final(moves)@ =~= old(moves)@ + seq![]);
        return;
    }
    push_pawn_move(side, sq, t, moves);
}

/// Appends the moves of a pawn of `side` on `sq`.
fn add_pawn_moves(
    boards: &[u64; 12],
    side: Side,
    sq: u8,
    enemies: u64,
    everyone: u64,
    moves: &mut Vec<Move>,
)
    requires
        sq < 64,
        enemies == side_bits(boards@, opponent(side)),
        everyone == all_bits(boards@, side),
    ensures
        final(moves)@ == old(moves)@ + pawn_moves(boards@, side, sq as int),
{
    let ghost b = boards@;
    let ghost init = moves@;
    let fwd: i32 = match side {
        Side::White => 8,
        Side::Black => -8,
    };
    let f = sq as i32 + fwd;
    if 0 <= f && f < 64 && !test_bit(everyone, f as u8) {
        if is_far_rank(side, f) {
            push_pawn_move(side, sq, f, moves);
        } else {
            moves.push((sq, f as u8, None));
            let start = match side {
                Side::White => 8 <= sq && sq < 16,
                Side::Black => 48 <= sq && sq < 56,
            };
            if start {
                let dbl = f + fwd;
                if !test_bit(everyone, dbl as u8) {
                    moves.push((sq, dbl as u8, None));
                }
            }
        }
    }
    assert(moves@ =~= init + pawn_pushes(b, side, sq as int));
    let (left, right): (i32, i32) = match side {
        Side::White => (7, 9),
        Side::Black => (-9, -7),
    };
    add_pawn_capture(boards, side, sq, left, 0, enemies, moves);
    add_pawn_capture(boards, side, sq, right, 7, enemies, moves);
    assert(moves@ =~= init + pawn_moves(b, side, sq as int));
}

/// Whether a step of `d` from `cur` would cross the a- or h-file edge.
fn crosses_edge(cur: i32, d: i32) -> (r: bool)
    requires
        0 <= cur < 64,
    ensures
        r == wraps(cur as int, d as int),
{
    ((d == -9 || d == 7 || d == -1) && cur % 8 == 0) || ((d == 9 || d == -7 || d == 1) && cur % 8
        == 7)
}

/// Appends the moves of a sliding piece of `side` on `from` along the ray in
/// direction `d`.
fn add_ray(
    boards: &[u64; 12],
    side: Side,
    from: u8,
    d: i32,
    friends: u64,
    enemies: u64,
    moves: &mut Vec<Move>,
)
    requires
        from < 64,
        d != 0,
        -9 <= d <= 9,
        friends == side_bits(boards@, side),
        enemies == side_bits(boards@, opponent(side)),
    ensures
        final(moves)@ == old(moves)@ + ray(boards@, side, from as int, from as int, d as int),
{
    let ghost b = boards@;
    let ghost init = moves@;
    let mut cur: i32 = from as i32;
    loop
        invariant
            0 <= cur < 64,
            d != 0,
            -9 <= d <= 9,
            from < 64,
            b == boards@,
            init == old(moves)@,
            friends == side_bits(b, side),
            enemies == side_bits(b, opponent(side)),
            init + ray(b, side, from as int, from as int, d as int) == moves@ + ray(
                b,
                side,
                from as int,
                cur as int,
                d as int,
            ),
        decreases (if d > 0 { 64 - cur } else { cur as int }),
    {
        let t = cur + d;
        if t < 0 || t >= 64 || crosses_edge(cur, d) || test_bit(friends, t as u8) {
            assert(moves@ =~= moves@ + ray(b, side, from as int, cur as int, d as int));
            return;
        }
        let ghost before = moves@;
        moves.push((from, t as u8, None));
        if test_bit(enemies, t as u8) {
            assert(moves@ =~= before + ray(b, side, from as int, cur as int, d as int));
            return;
        }
        assert(ray(b, side, from as int, cur as int, d as int) == seq![plain(from as int, t as int)]
            + ray(b, side, from as int, t as int, d as int));
        assert(moves@ + ray(b, side, from as int, t as int, d as int) =~= before + ray(
            b,
            side,
            from as int,
            cur as int,
            d as int,
        ));
        cur = t;
    }
}


/// Appends the single step of a knight or king of `side` on `sq` by `d`.
fn add_step(
    boards: &[u64; 12],
    side: Side,
    kind: usize,
    sq: u8,
    d: i32,
    friends: u64,
    moves: &mut Vec<Move>,
)
    requires
        kind == KNIGHT || kind == KING,
        sq < 64,
        -17 <= d <= 17,
        friends == side_bits(boards@, side),
    ensures
        final(moves)@ == old(moves)@ + direction_moves(boards@, side, kind as int, sq as int, d as int),
{
    let t = sq as i32 + d;
    if t < 0 || t >= 64 {
        assert(final(moves)@ =~= old(moves)@ + seq![]);
        return;
    }
    let off_file = if kind == KNIGHT {
        let fd = sq as i32 % 8 - t % 8;
        fd > 2 || fd < -2
    } else {
        crosses_edge(sq as i32, d)
    };
    if off_file || test_bit(friends, t as u8) {
        assert(final(moves)@ =~= old(moves)@ + seq![]);
        return;
    }
    moves.push((sq, t as u8, None));
}

/// The directions of a non-pawn piece kind, in generation order.
fn direction_list(kind: usize) -> (r: Vec<i8>)
    requires
        KNIGHT <= kind <= KING,
    ensures
        r@ == directions(kind as int),
{
    let r = if kind == KNIGHT {
        vec![-17i8, -15i8, -10i8, -6i8, 6i8, 10i8, 15i8, 17i8]
    } else if kind == BISHOP {
        vec![-9i8, -7i8, 7i8, 9i8]
    } else if kind == ROOK {
        vec![-8i8, -1i8, 1i8, 8i8]
    } else {
        vec![-9i8, -8i8, -7i8, -1i8, 1i8, 7i8, 8i8, 9i8]
    };
    assert(r@ =~= directions(kind as int));
    r
}

/// Each direction is a non-zero step of at most 17 squares; the sliding
/// pieces step at most 9.
proof fn lemma_directions(kind: int, j: int)
    requires
        KNIGHT <= kind <= KING,
        0 <= j < directions(kind).len(),
    ensures
        directions(kind)[j] != 0,
        -17 <= directions(kind)[j] <= 17,
        kind != KNIGHT ==> -9 <= directions(kind)[j] <= 9,
{
}

/// Appends the moves of a piece of kind `kind` and side `side` on `sq`.
fn add_piece_moves(
    boards: &[u64; 12],
    side: Side,
    kind: usize,
    sq: u8,
    friends: u64,
    enemies: u64,
    everyone: u64,
    moves: &mut Vec<Move>,
)
    requires
        kind < 6,
        sq < 64,
        friends == side_bits(boards@, side),
        enemies == side_bits(boards@, opponent(side)),
        everyone == all_bits(boards@, side),
    ensures
        final(moves)@ == old(moves)@ + piece_moves(boards@, side, kind as int, sq as int),
{
    if kind == PAWN {
        add_pawn_moves(boards, side, sq, enemies, everyone, moves);
        return;
    }
    let ghost b = boards@;
    let ghost init = moves@;
    let dirs = direction_list(kind);
    let mut j: usize = 0;
    while j < dirs.len()
        invariant
            KNIGHT <= kind <= KING,
            sq < 64,
            b == boards@,
            dirs@ == directions(kind as int),
            j <= dirs@.len(),
            friends == side_bits(b, side),
            enemies == side_bits(b, opponent(side)),
            moves@ == init + directions_moves(b, side, kind as int, sq as int, j as int),
        decreases dirs@.len() - j,
    {
        proof {
            lemma_directions(kind as int, j as int);
        }
        let d = dirs[j] as i32;
        if kind == KNIGHT || kind == KING {
            add_step(boards, side, kind, sq, d, friends, moves);
        } else {
            add_ray(boards, side, sq, d, friends, enemies, moves);
        }
        assert(moves@ =~= init + directions_moves(b, side, kind as int, sq as int, j + 1));
        j += 1;
    }
}

/// Appends the moves of all of `side`'s pieces of kind `kind`, square by
/// square from square 0 upward.
fn add_kind_moves(
    boards: &[u64; 12],
    side: Side,
    kind: usize,
    friends: u64,
    enemies: u64,
    everyone: u64,
    moves: &mut Vec<Move>,
)
    requires
        kind < 6,
        friends == side_bits(boards@, side),
        enemies == side_bits(boards@, opponent(side)),
        everyone == all_bits(boards@, side),
    ensures
        final(moves)@ == old(moves)@ + kind_moves(boards@, side, kind as int, 64),
{
    let ghost b = boards@;
    let ghost init = moves@;
    let index: usize = match side {
        Side::White => kind,
        Side::Black => kind + 6,
    };
    let bb = boards[index];
    let mut sq: u8 = 0;
    while sq < 64
        invariant
            kind < 6,
            sq <= 64,
            b == boards@,
            bb == b[offset(side) + kind],
            friends == side_bits(b, side),
            enemies == side_bits(b, opponent(side)),
            everyone == all_bits(b, side),
            moves@ == init + kind_moves(b, side, kind as int, sq as int),
        decreases 64 - sq,
    {
        if test_bit(bb, sq) {
            add_piece_moves(boards, side, kind, sq, friends, enemies, everyone, moves);
        }
        assert(moves@ =~= init + kind_moves(b, side, kind as int, sq + 1));
        sq += 1;
    }
}

/// The pseudo-legal moves of `side`: every move that follows the movement
/// rules of the piece making it, whether or not it leaves the mover's king
/// attacked. Pawns come first, then knights, bishops, rooks, queens and the
/// king; pieces of one kind in the order of their squares.
pub fn generate_moves(boards: &[u64; 12], side: Side) -> (r: Vec<Move>)
    ensures
        r@ == pseudo_moves(boards@, side),
{
    let friends = side_union(boards, side);
    let enemies = side_union(boards, other(side));
    let everyone = friends | enemies;
    let mut moves: Vec<Move> = Vec::new();
    let mut kind: usize = 0;
    while kind < 6
        invariant
            kind <= 6,
            friends == side_bits(boards@, side),
            enemies == side_bits(boards@, opponent(side)),
            everyone == all_bits(boards@, side),
            moves@ == moves_of_kinds(boards@, side, kind as int),
        decreases 6 - kind,
    {
        add_kind_moves(boards, side, kind, friends, enemies, everyone, &mut moves);
        kind += 1;
    }
    moves
}


/// A move of `side` starts on a square of `side`'s pieces, both squares are
/// on the board, and on a well-formed position it does not land on a square
/// of `side`'s pieces.
pub open spec fn sound(b: Seq<u64>, side: Side, m: Move) -> bool {
    &&& m.0 < 64
    &&& m.1 < 64
    &&& is_set(side_bits(b, side), m.0 as int)
    &&& well_formed(b) ==> !is_set(side_bits(b, side), m.1 as int)
}

/// Every move of `ms` is sound.
pub open spec fn all_sound(b: Seq<u64>, side: Side, ms: Seq<Move>) -> bool {
    forall|i: int| 0 <= i < ms.len() ==> #[trigger] sound(b, side, ms[i])
}

proof fn lemma_concat_sound(b: Seq<u64>, side: Side, x: Seq<Move>, y: Seq<Move>)
    requires
        all_sound(b, side, x),
        all_sound(b, side, y),
    ensures
        all_sound(b, side, x + y),
{
    assert forall|i: int| 0 <= i < (x + y).len() implies #[trigger] sound(b, side, (x + y)[i]) by {
        if i < x.len() {
            assert((x + y)[i] == x[i]);
        } else {
            assert((x + y)[i] == y[i - x.len()]);
        }
    }
}

/// A square in a union of two bitboards is in one of them.
proof fn lemma_union2(a: u64, c: u64, sq: int)
    requires
        0 <= sq < 64,
    ensures
        is_set(a | c, sq) <==> is_set(a, sq) || is_set(c, sq),
{
    let s = sq as u64;
    assert(((a | c) >> s) & 1u64 == 1u64 <==> (a >> s) & 1u64 == 1u64 || (c >> s) & 1u64 == 1u64)
        by (bit_vector);
}

/// On a well-formed position no square holds pieces of both sides.
proof fn lemma_sides_disjoint(b: Seq<u64>, side: Side, sq: int)
    requires
        well_formed(b),
        0 <= sq < 64,
        is_set(side_bits(b, opponent(side)), sq),
    ensures
        !is_set(side_bits(b, side), sq),
{
    lemma_side_bits(b, side, sq);
    lemma_side_bits(b, opponent(side), sq);
    if is_set(side_bits(b, side), sq) {
        let k = choose|k: int| 0 <= k < 6 && #[trigger] is_set(b[offset(side) + k], sq);
        let k2 = choose|k: int| 0 <= k < 6 && #[trigger] is_set(b[offset(opponent(side)) + k], sq);
        assert(offset(side) + k == offset(opponent(side)) + k2);
    }
}

/// Each target square of a plain move is sound when it is on the board and
/// not `side`'s own.
proof fn lemma_plain_sound(b: Seq<u64>, side: Side, from: int, to: int)
    requires
        0 <= from < 64,
        0 <= to < 64,
        is_set(side_bits(b, side), from),
        !is_set(side_bits(b, side), to),
    ensures
        sound(b, side, plain(from, to)),
{
}

proof fn lemma_pawn_move_to_sound(b: Seq<u64>, side: Side, from: int, to: int)
    requires
        0 <= from < 64,
        0 <= to < 64,
        is_set(side_bits(b, side), from),
        well_formed(b) ==> !is_set(side_bits(b, side), to),
    ensures
        all_sound(b, side, pawn_move_to(side, from, to)),
{
    let ms = pawn_move_to(side, from, to);
    assert forall|i: int| 0 <= i < ms.len() implies #[trigger] sound(b, side, ms[i]) by {
        assert(ms[i].0 == from as u8 && ms[i].1 == to as u8);
    }
}

proof fn lemma_pawn_sound(b: Seq<u64>, side: Side, sq: int)
    requires
        b.len() == 12,
        0 <= sq < 64,
        is_set(side_bits(b, side), sq),
    ensures
        all_sound(b, side, pawn_moves(b, side, sq)),
{
    let f = sq + forward(side);
    let dbl = f + forward(side);
    let pushes = pawn_pushes(b, side, sq);
    if on_board(f) && !is_set(all_bits(b, side), f) {
        lemma_union2(side_bits(b, side), side_bits(b, opponent(side)), f);
        if on_far_rank(side, f) {
            lemma_pawn_move_to_sound(b, side, sq, f);
        } else if on_start_rank(side, sq) && !is_set(all_bits(b, side), dbl) {
            lemma_union2(side_bits(b, side), side_bits(b, opponent(side)), dbl);
            lemma_plain_sound(b, side, sq, f);
            lemma_plain_sound(b, side, sq, dbl);
            assert(pushes[0] == plain(sq, f) && pushes[1] == plain(sq, dbl));
        } else {
            lemma_plain_sound(b, side, sq, f);
            assert(pushes[0] == plain(sq, f));
        }
    }
    assert(all_sound(b, side, pushes));
    let l = sq + left_capture(side);
    let r = sq + right_capture(side);
    if sq % 8 != 0 && on_board(l) && is_set(side_bits(b, opponent(side)), l) {
        if well_formed(b) {
            lemma_sides_disjoint(b, side, l);
        }
        lemma_pawn_move_to_sound(b, side, sq, l);
    }
    if sq % 8 != 7 && on_board(r) && is_set(side_bits(b, opponent(side)), r) {
        if well_formed(b) {
            lemma_sides_disjoint(b, side, r);
        }
        lemma_pawn_move_to_sound(b, side, sq, r);
    }
    lemma_concat_sound(b, side, pushes, pawn_capture(b, side, sq, left_capture(side), 0));
    lemma_concat_sound(
        b,
        side,
        pushes + pawn_capture(b, side, sq, left_capture(side), 0),
        pawn_capture(b, side, sq, right_capture(side), 7),
    );
}

proof fn lemma_ray_sound(b: Seq<u64>, side: Side, from: int, cur: int, d: int)
    requires
        0 <= from < 64,
        0 <= cur < 64,
        d != 0,
        is_set(side_bits(b, side), from),
    ensures
        all_sound(b, side, ray(b, side, from, cur, d)),
    decreases (if d > 0 { 64 - cur } else { cur }),
{
    let t = cur + d;
    if on_board(t) && !wraps(cur, d) && !is_set(side_bits(b, side), t) {
        lemma_plain_sound(b, side, from, t);
        let head = seq![plain(from, t)];
        assert(all_sound(b, side, head)) by {
            assert forall|i: int| 0 <= i < head.len() implies #[trigger] sound(b, side, head[i]) by {
                assert(head[i] == plain(from, t));
            }
        }
        if !is_set(side_bits(b, opponent(side)), t) {
            lemma_ray_sound(b, side, from, t, d);
            lemma_concat_sound(b, side, head, ray(b, side, from, t, d));
        }
    }
}

proof fn lemma_directions_sound(b: Seq<u64>, side: Side, kind: int, sq: int, n: int)
    requires
        KNIGHT <= kind <= KING,
        0 <= sq < 64,
        n <= directions(kind).len(),
        is_set(side_bits(b, side), sq),
    ensures
        all_sound(b, side, directions_moves(b, side, kind, sq, n)),
    decreases n,
{
    if n > 0 {
        lemma_directions_sound(b, side, kind, sq, n - 1);
        let d = directions(kind)[n - 1] as int;
        lemma_directions(kind, n - 1);
        let dm = direction_moves(b, side, kind, sq, d);
        if kind == KNIGHT || kind == KING {
            if dm.len() > 0 {
                lemma_plain_sound(b, side, sq, sq + d);
                assert forall|i: int| 0 <= i < dm.len() implies #[trigger] sound(b, side, dm[i]) by {
                    assert(dm[i] == plain(sq, sq + d));
                }
            }
        } else {
            lemma_ray_sound(b, side, sq, sq, d);
        }
        lemma_concat_sound(b, side, directions_moves(b, side, kind, sq, n - 1), dm);
    }
}

proof fn lemma_kind_sound(b: Seq<u64>, side: Side, kind: int, n: int)
    requires
        b.len() == 12,
        0 <= kind < 6,
        n <= 64,
    ensures
        all_sound(b, side, kind_moves(b, side, kind, n)),
    decreases n,
{
    if n > 0 {
        lemma_kind_sound(b, side, kind, n - 1);
        let sq = n - 1;
        if is_set(b[offset(side) + kind], sq) {
            let o = offset(side);
            lemma_union6(b[o], b[o + 1], b[o + 2], b[o + 3], b[o + 4], b[o + 5], sq);
            assert(is_set(side_bits(b, side), sq)) by {
                assert(kind == 0 || kind == 1 || kind == 2 || kind == 3 || kind == 4 || kind == 5);
            }
            if kind == PAWN {
                lemma_pawn_sound(b, side, sq);
            } else {
                lemma_directions_sound(b, side, kind, sq, directions(kind).len() as int);
            }
            lemma_concat_sound(
                b,
                side,
                kind_moves(b, side, kind, n - 1),
                piece_moves(b, side, kind, sq),
            );
        }
    }
}

proof fn lemma_moves_of_kinds_sound(b: Seq<u64>, side: Side, k: int)
    requires
        b.len() == 12,
        k <= 6,
    ensures
        all_sound(b, side, moves_of_kinds(b, side, k)),
    decreases k,
{
    if k > 0 {
        lemma_moves_of_kinds_sound(b, side, k - 1);
        lemma_kind_sound(b, side, k - 1, 64);
        lemma_concat_sound(b, side, moves_of_kinds(b, side, k - 1), kind_moves(b, side, k - 1, 64));
    }
}

/// Every generated move names two squares of the board.
pub proof fn lemma_pseudo_moves_in_range(b: Seq<u64>, side: Side)
    requires
        b.len() == 12,
    ensures
        forall|i: int|
            0 <= i < pseudo_moves(b, side).len() ==> #[trigger] pseudo_moves(b, side)[i].0 < 64
                && pseudo_moves(b, side)[i].1 < 64,
{
    lemma_moves_of_kinds_sound(b, side, 6);
    assert forall|i: int| 0 <= i < pseudo_moves(b, side).len() implies #[trigger] pseudo_moves(
        b,
        side,
    )[i].0 < 64 && pseudo_moves(b, side)[i].1 < 64 by {
        assert(sound(b, side, pseudo_moves(b, side)[i]));
    }
}

/// On a well-formed position, every generated move of `side` starts on a
/// square occupied by one of `side`'s pieces and never lands on one.
pub proof fn lemma_pseudo_moves_sound(b: Seq<u64>, side: Side)
    requires
        well_formed(b),
    ensures
        forall|i: int|
            #![trigger pseudo_moves(b, side)[i]]
            0 <= i < pseudo_moves(b, side).len() ==> {
                let m = pseudo_moves(b, side)[i];
                &&& m.0 < 64
                &&& m.1 < 64
                &&& occupied_by(b, side, m.0 as int)
                &&& !occupied_by(b, side, m.1 as int)
            },
{
    lemma_moves_of_kinds_sound(b, side, 6);
    assert forall|i: int| 0 <= i < pseudo_moves(b, side).len() implies {
        let m = #[trigger] pseudo_moves(b, side)[i];
        &&& m.0 < 64
        &&& m.1 < 64
        &&& occupied_by(b, side, m.0 as int)
        &&& !occupied_by(b, side, m.1 as int)
    } by {
        let m = pseudo_moves(b, side)[i];
        assert(sound(b, side, m));
        lemma_side_bits(b, side, m.0 as int);
        lemma_side_bits(b, side, m.1 as int);
    }
}


/// The moves of `ms` that land on `t`, in their order.
pub open spec fn moves_to(ms: Seq<Move>, t: int) -> Seq<Move> {
    ms.filter(|m: Move| m.1 as int == t)
}

proof fn lemma_moves_to_none(ms: Seq<Move>, t: int)
    requires
        forall|i: int| 0 <= i < ms.len() ==> (#[trigger] ms[i]).1 as int != t,
    ensures
        moves_to(ms, t) == Seq::<Move>::empty(),
    decreases ms.len(),
{
    reveal(Seq::filter);
    if ms.len() > 0 {
        lemma_moves_to_none(ms.drop_last(), t);
        assert(ms.last() == ms[ms.len() - 1]);
    }
}

proof fn lemma_moves_to_all(ms: Seq<Move>, t: int)
    requires
        forall|i: int| 0 <= i < ms.len() ==> (#[trigger] ms[i]).1 as int == t,
    ensures
        moves_to(ms, t) == ms,
    decreases ms.len(),
{
    reveal(Seq::filter);
    if ms.len() > 0 {
        lemma_moves_to_all(ms.drop_last(), t);
        assert(ms.last() == ms[ms.len() - 1]);
        assert(ms.drop_last().push(ms.last()) =~= ms);
    }
}

/// The moves of a pawn landing on a square `t` of the far rank: none, or
/// the four promotions.
proof fn lemma_pawn_part_to(ms: Seq<Move>, from: int, t: int, target: int)
    requires
        0 <= from < 64,
        0 <= t < 64,
        0 <= target < 64,
        ms == Seq::<Move>::empty() || ms == promotions(from, target) || (target != t && ms == seq![
            plain(from, target),
        ]),
    ensures
        target == t ==> moves_to(ms, t) == ms,
        target != t ==> moves_to(ms, t) == Seq::<Move>::empty(),
{
    if target == t {
        lemma_moves_to_all(ms, t);
    } else {
        lemma_moves_to_none(ms, t);
    }
}

/// Promotion fan-out: the moves of a pawn on `sq` that land on a square `t`
/// of the far rank are none or exactly the four promotions (queen, rook,
/// bishop, knight), and a pawn move carries a promotion exactly when it
/// lands on the far rank.
pub proof fn lemma_promotion_fan_out(b: Seq<u64>, side: Side, sq: int, t: int)
    requires
        0 <= sq < 64,
        on_far_rank(side, t),
    ensures
        moves_to(pawn_moves(b, side, sq), t) == Seq::<Move>::empty() || moves_to(
            pawn_moves(b, side, sq),
            t,
        ) == promotions(sq, t),
        forall|i: int|
            0 <= i < pawn_moves(b, side, sq).len() ==> ((#[trigger] pawn_moves(b, side, sq)[i]).2
                is Some <==> on_far_rank(side, pawn_moves(b, side, sq)[i].1 as int)),
{
    let f = sq + forward(side);
    let dbl = f + forward(side);
    let l = sq + left_capture(side);
    let r = sq + right_capture(side);
    let pushes = pawn_pushes(b, side, sq);
    let lc = pawn_capture(b, side, sq, left_capture(side), 0);
    let rc = pawn_capture(b, side, sq, right_capture(side), 7);
    let pred = |m: Move| m.1 as int == t;
    Seq::filter_distributes_over_add(pushes, lc, pred);
    Seq::filter_distributes_over_add(pushes + lc, rc, pred);
    if on_board(f) && !is_set(all_bits(b, side), f) && !on_far_rank(side, f) {
        let ps = pushes;
        assert forall|i: int| 0 <= i < ps.len() implies (#[trigger] ps[i]).1 as int != t by {
            assert(ps[i] == plain(sq, f) || ps[i] == plain(sq, dbl));
        }
        lemma_moves_to_none(ps, t);
    } else if on_board(f) {
        lemma_pawn_part_to(pushes, sq, t, f);
    } else {
        lemma_moves_to_none(pushes, t);
    }
    if on_board(l) {
        lemma_pawn_part_to(lc, sq, t, l);
    } else {
        lemma_moves_to_none(lc, t);
    }
    if on_board(r) {
        lemma_pawn_part_to(rc, sq, t, r);
    } else {
        lemma_moves_to_none(rc, t);
    }
    let all = pawn_moves(b, side, sq);
    assert forall|i: int| 0 <= i < all.len() implies ((#[trigger] all[i]).2 is Some <==> on_far_rank(
        side,
        all[i].1 as int,
    )) by {
        if i < pushes.len() {
            assert(all[i] == pushes[i]);
        } else if i < pushes.len() + lc.len() {
            assert(all[i] == lc[i - pushes.len()]);
        } else {
            assert(all[i] == rc[i - pushes.len() - lc.len()]);
        }
    }
}

} // verus!
