//! Check detection, the legality filter, and the fixed-depth minimax search.
use vstd::prelude::*;
use crate::board::{is_set, offset, opponent, other, test_bit, Move, Side};
use crate::evaluate::{evaluate, evaluation, lemma_evaluation_bounds};
use crate::generate_moves::{generate_moves, lemma_pseudo_moves_in_range, pseudo_moves};
use crate::move_piece::{apply_move, move_piece};

verus! {

/// The score of a checkmate, before the remaining depth is added to it.
pub const MATE: i32 = 100000;

/// Whether a pseudo-legal move of `side`'s opponent lands on a square of
/// `side`'s king.
pub open spec fn king_attacked(b: Seq<u64>, side: Side) -> bool {
    let enemy = pseudo_moves(b, opponent(side));
    exists|i: int|
        0 <= i < enemy.len() && is_set(b[offset(side) + 5], #[trigger] enemy[i].1 as int)
}

/// Whether move `m` of `side` leaves `side`'s king unattacked.
pub open spec fn leaves_king_safe(b: Seq<u64>, side: Side, m: Move) -> bool {
    !king_attacked(apply_move(b, m), side)
}

/// The moves of `ms` that leave `side`'s king safe, in their order.
pub open spec fn safe_moves(b: Seq<u64>, side: Side, ms: Seq<Move>) -> Seq<Move>
    decreases ms.len(),
{
    if ms.len() == 0 {
        seq![]
    } else {
        let prev = safe_moves(b, side, ms.drop_last());
        if leaves_king_safe(b, side, ms.last()) {
            prev.push(ms.last())
        } else {
            prev
        }
    }
}

/// The legal moves of `side`: its pseudo-legal moves that leave its king
/// unattacked, in generation order.
pub open spec fn legal_moves(b: Seq<u64>, side: Side) -> Seq<Move> {
    safe_moves(b, side, pseudo_moves(b, side))
}

/// Whether some piece of `side`'s opponent attacks `side`'s king.
pub fn in_check(boards: &[u64; 12], side: Side) -> (r: bool)
    ensures
        r == king_attacked(boards@, side),
{
    let king = match side {
        Side::White => boards[5],
        Side::Black => boards[11],
    };
    let enemy = generate_moves(boards, other(side));
    let mut i: usize = 0;
    while i < enemy.len()
        invariant
            i <= enemy@.len(),
            enemy@ == pseudo_moves(boards@, opponent(side)),
            king == boards@[offset(side) + 5],
            forall|k: int| 0 <= k < i ==> !is_set(king, #[trigger] enemy@[k].1 as int),
        decreases enemy@.len() - i,
    {
        let to = enemy[i].1;
        if to < 64 && test_bit(king, to) {
            return true;
        }
        i += 1;
    }
    false
}

/// Every move that the filter keeps is one of `ms` and leaves the king safe.
proof fn lemma_safe_moves(b: Seq<u64>, side: Side, ms: Seq<Move>)
    ensures
        forall|i: int|
            0 <= i < safe_moves(b, side, ms).len() ==> ms.contains(
                #[trigger] safe_moves(b, side, ms)[i],
            ) && leaves_king_safe(b, side, safe_moves(b, side, ms)[i]),
    decreases ms.len(),
{
    if ms.len() > 0 {
        let prev = ms.drop_last();
        lemma_safe_moves(b, side, prev);
        let r = safe_moves(b, side, ms);
        assert forall|i: int| 0 <= i < r.len() implies ms.contains(#[trigger] r[i])
            && leaves_king_safe(b, side, r[i]) by {
            if i < safe_moves(b, side, prev).len() {
                let m = r[i];
                assert(m == safe_moves(b, side, prev)[i]);
                let k = choose|k: int| 0 <= k < prev.len() && prev[k] == m;
                assert(ms[k] == m);
            } else {
                assert(r[i] == ms[ms.len() - 1]);
            }
        }
    }
}

/// Every legal move names two squares of the board.
proof fn lemma_legal_moves_in_range(b: Seq<u64>, side: Side)
    requires
        b.len() == 12,
    ensures
        forall|i: int|
            0 <= i < legal_moves(b, side).len() ==> #[trigger] legal_moves(b, side)[i].0 < 64
                && legal_moves(b, side)[i].1 < 64,
{
    lemma_pseudo_moves_in_range(b, side);
    lemma_safe_moves(b, side, pseudo_moves(b, side));
    assert forall|i: int| 0 <= i < legal_moves(b, side).len() implies #[trigger] legal_moves(
        b,
        side,
    )[i].0 < 64 && legal_moves(b, side)[i].1 < 64 by {
        let m = legal_moves(b, side)[i];
        let k = choose|k: int|
            0 <= k < pseudo_moves(b, side).len() && pseudo_moves(b, side)[k] == m;
        assert(pseudo_moves(b, side)[k].0 < 64);
    }
}

/// No legal move leaves the mover's king where a pseudo-legal move of the
/// opponent, on the position after the move, lands.
pub proof fn lemma_legal_moves_safe(b: Seq<u64>, side: Side)
    ensures
        forall|i: int|
            #![trigger legal_moves(b, side)[i]]
            0 <= i < legal_moves(b, side).len() ==> {
                let after = apply_move(b, legal_moves(b, side)[i]);
                let replies = pseudo_moves(after, opponent(side));
                forall|j: int|
                    0 <= j < replies.len() ==> !is_set(
                        after[offset(side) + 5],
                        #[trigger] replies[j].1 as int,
                    )
            },
{
    lemma_safe_moves(b, side, pseudo_moves(b, side));
    assert forall|i: int| 0 <= i < legal_moves(b, side).len() implies {
        let after = apply_move(b, #[trigger] legal_moves(b, side)[i]);
        let replies = pseudo_moves(after, opponent(side));
        forall|j: int|
            0 <= j < replies.len() ==> !is_set(
                after[offset(side) + 5],
                #[trigger] replies[j].1 as int,
            )
    } by {
        assert(leaves_king_safe(b, side, legal_moves(b, side)[i]));
    }
}

/// The legal moves of `side`: the pseudo-legal moves after which no
/// pseudo-legal move of the opponent lands on `side`'s king.
pub fn generate_legal_moves(boards: &[u64; 12], side: Side) -> (r: Vec<Move>)
    ensures
        r@ == legal_moves(boards@, side),
{
    let ghost b = boards@;
    let moves = generate_moves(boards, side);
    proof {
        lemma_pseudo_moves_in_range(b, side);
    }
    let mut legal: Vec<Move> = Vec::new();
    let mut i: usize = 0;
    while i < moves.len()
        invariant
            b == boards@,
            i <= moves@.len(),
            moves@ == pseudo_moves(b, side),
            forall|k: int| 0 <= k < moves@.len() ==> #[trigger] moves@[k].0 < 64 && moves@[k].1 < 64,
            legal@ == safe_moves(b, side, moves@.take(i as int)),
        decreases moves@.len() - i,
    {
        let m = moves[i];
        let mut next = *boards;
        let mut en_passant: Option<u8> = None;
        let _ = move_piece(&mut next, m, &mut en_passant);
        if !in_check(&next, side) {
            legal.push(m);
        }
        assert(moves@.take(i + 1).drop_last() =~= moves@.take(i as int));
        i += 1;
    }
    assert(moves@.take(moves@.len() as int) =~= moves@);
    legal
}


/// The score of a node with no legal move: a checkmate is worth `MATE` plus
/// the remaining depth to the side that gave it, so that nearer mates score
/// higher; a stalemate is worth 0.
pub open spec fn terminal_score(b: Seq<u64>, side: Side, depth: int) -> int {
    if king_attacked(b, side) {
        match side {
            Side::White => -(MATE + depth),
            Side::Black => MATE + depth,
        }
    } else {
        0
    }
}

/// The minimax value of a position with `side` to move, searched `depth`
/// plies deep: the material score at depth 0, else the best child value for
/// `side` (the largest for White, the smallest for Black), else the
/// terminal score when `side` has no legal move.
pub open spec fn minimax_value(b: Seq<u64>, side: Side, depth: nat) -> int
    decreases depth, 0nat,
{
    if depth == 0 {
        evaluation(b)
    } else {
        let ms = legal_moves(b, side);
        if ms.len() == 0 {
            terminal_score(b, side, depth as int)
        } else {
            best_value(b, side, (depth - 1) as nat, ms)
        }
    }
}

/// The best, for `side`, of the values `d` plies deep of the positions after
/// each move of `ms`; folded from the first move on, so that a later move
/// replaces an earlier one only when strictly better.
pub open spec fn best_value(b: Seq<u64>, side: Side, d: nat, ms: Seq<Move>) -> int
    decreases d, ms.len(),
{
    if ms.len() == 0 {
        0
    } else {
        let c = minimax_value(apply_move(b, ms.last()), opponent(side), d);
        if ms.len() == 1 {
            c
        } else {
            let prev = best_value(b, side, d, ms.drop_last());
            match side {
                Side::White => if c > prev {
                    c
                } else {
                    prev
                },
                Side::Black => if c < prev {
                    c
                } else {
                    prev
                },
            }
        }
    }
}

/// The value `d` plies deep of the position after `side` plays `m`.
pub open spec fn child_value(b: Seq<u64>, side: Side, d: nat, m: Move) -> int {
    minimax_value(apply_move(b, m), opponent(side), d)
}

/// What a search of `depth` plies with `side` to move returns: no move at
/// depth 0 or without a legal move; otherwise the first legal move, in
/// generation order, whose value is the position's minimax value, with that
/// value.
pub open spec fn search_result(b: Seq<u64>, side: Side, depth: nat, r: Option<(Move, i32)>) -> bool {
    let ms = legal_moves(b, side);
    match r {
        None => depth == 0 || ms.len() == 0,
        Some((m, s)) => {
            &&& depth > 0
            &&& ms.len() > 0
            &&& s == minimax_value(b, side, depth)
            &&& exists|i: int|
                0 <= i < ms.len() && ms[i] == m && child_value(b, side, (depth - 1) as nat, ms[i])
                    == s && forall|j: int|
                    0 <= j < i ==> #[trigger] child_value(b, side, (depth - 1) as nat, ms[j]) != s
        },
    }
}

/// Minimax values lie within `MATE + 255` of zero, for depths up to 255.
proof fn lemma_minimax_bounds(b: Seq<u64>, side: Side, depth: nat)
    requires
        depth <= 255,
    ensures
        -(MATE + 255) <= minimax_value(b, side, depth) <= MATE + 255,
    decreases depth, 0nat,
{
    if depth == 0 {
        lemma_evaluation_bounds(b);
    } else if legal_moves(b, side).len() > 0 {
        lemma_best_bounds(b, side, (depth - 1) as nat, legal_moves(b, side));
    }
}

proof fn lemma_best_bounds(b: Seq<u64>, side: Side, d: nat, ms: Seq<Move>)
    requires
        d < 255,
    ensures
        -(MATE + 255) <= best_value(b, side, d, ms) <= MATE + 255,
    decreases d, ms.len(),
{
    if ms.len() > 0 {
        lemma_minimax_bounds(apply_move(b, ms.last()), opponent(side), d);
        if ms.len() > 1 {
            lemma_best_bounds(b, side, d, ms.drop_last());
        }
    }
}

/// The minimax value of the position with `side` to move, searched `depth`
/// plies deep without pruning.
pub fn minimax(boards: &[u64; 12], side: Side, depth: u8) -> (r: i32)
    ensures
        r == minimax_value(boards@, side, depth as nat),
    decreases depth,
{
    if depth == 0 {
        return evaluate(boards);
    }
    let ghost b = boards@;
    let moves = generate_legal_moves(boards, side);
    if moves.len() == 0 {
        if in_check(boards, side) {
            return match side {
                Side::White => -(MATE + depth as i32),
                Side::Black => MATE + depth as i32,
            };
        }
        return 0;
    }
    proof {
        lemma_legal_moves_in_range(b, side);
    }
    let ghost d = (depth - 1) as nat;
    let mut eval: i32 = match side {
        Side::White => i32::MIN,
        Side::Black => i32::MAX,
    };
    let mut i: usize = 0;
    while i < moves.len()
        invariant
            b == boards@,
            d == depth - 1,
            depth > 0,
            i <= moves@.len(),
            moves@ == legal_moves(b, side),
            forall|k: int| 0 <= k < moves@.len() ==> #[trigger] moves@[k].0 < 64 && moves@[k].1 < 64,
            i == 0 ==> eval == (match side {
                Side::White => i32::MIN,
                Side::Black => i32::MAX,
            }),
            i > 0 ==> eval == best_value(b, side, d, moves@.take(i as int)),
        decreases moves@.len() - i,
    {
        let m = moves[i];
        let mut next = *boards;
        let mut en_passant: Option<u8> = None;
        let _ = move_piece(&mut next, m, &mut en_passant);
        let c = minimax(&next, other(side), depth - 1);
        eval = match side {
            Side::White => if c > eval {
                c
            } else {
                eval
            },
            Side::Black => if c < eval {
                c
            } else {
                eval
            },
        };
        assert(moves@.take(i + 1).drop_last() =~= moves@.take(i as int));
        assert(moves@.take(i + 1).last() == m);
        i += 1;
    }
    assert(moves@.take(moves@.len() as int) =~= moves@);
    eval
}

/// Searches `depth` plies deep with `side` to move and returns the chosen
/// move with its minimax value: among the legal moves, the first in
/// generation order with the best value for `side`. Returns `None` at depth
/// 0 and when `side` has no legal move.
pub fn search(boards: &[u64; 12], side: Side, depth: u8) -> (r: Option<(Move, i32)>)
    ensures
        search_result(boards@, side, depth as nat, r),
        r matches Some((m, _)) ==> m.0 < 64 && m.1 < 64,
{
    let ghost b = boards@;
    let moves = generate_legal_moves(boards, side);
    if depth == 0 || moves.len() == 0 {
        return None;
    }
    proof {
        lemma_legal_moves_in_range(b, side);
    }
    let ghost d = (depth - 1) as nat;
    let mut best: usize = 0;
    let mut best_eval: i32 = match side {
        Side::White => i32::MIN,
        Side::Black => i32::MAX,
    };
    let mut i: usize = 0;
    while i < moves.len()
        invariant
            b == boards@,
            d == depth - 1,
            depth > 0,
            i <= moves@.len(),
            moves@ == legal_moves(b, side),
            forall|k: int| 0 <= k < moves@.len() ==> #[trigger] moves@[k].0 < 64 && moves@[k].1 < 64,
            i == 0 ==> best_eval == (match side {
                Side::White => i32::MIN,
                Side::Black => i32::MAX,
            }),
            i > 0 ==> {
                &&& best < i
                &&& best_eval == best_value(b, side, d, moves@.take(i as int))
                &&& best_eval == child_value(b, side, d, moves@[best as int])
                &&& forall|k: int|
                    0 <= k < best ==> #[trigger] child_value(b, side, d, moves@[k]) != best_eval
            },
            forall|k: int|
                0 <= k < i ==> match side {
                    Side::White => #[trigger] child_value(b, side, d, moves@[k]) <= best_eval,
                    Side::Black => child_value(b, side, d, moves@[k]) >= best_eval,
                },
        decreases moves@.len() - i,
    {
        let m = moves[i];
        let mut next = *boards;
        let mut en_passant: Option<u8> = None;
        let _ = move_piece(&mut next, m, &mut en_passant);
        let c = minimax(&next, other(side), depth - 1);
        proof {
            lemma_minimax_bounds(next@, opponent(side), d);
        }
        let better = match side {
            Side::White => c > best_eval,
            Side::Black => c < best_eval,
        };
        if better {
            best = i;
            best_eval = c;
        }
        assert(moves@.take(i + 1).drop_last() =~= moves@.take(i as int));
        assert(moves@.take(i + 1).last() == m);
        i += 1;
    }
    assert(moves@.take(moves@.len() as int) =~= moves@);
    Some((moves[best], best_eval))
}

/// A search is deterministic: its contract allows one result for each
/// position, side and depth, so repeated searches return the same move and
/// score.
pub proof fn lemma_search_deterministic(
    b: Seq<u64>,
    side: Side,
    depth: nat,
    r1: Option<(Move, i32)>,
    r2: Option<(Move, i32)>,
)
    requires
        search_result(b, side, depth, r1),
        search_result(b, side, depth, r2),
    ensures
        r1 == r2,
{
    let ms = legal_moves(b, side);
    if let (Some((m1, s1)), Some((m2, s2))) = (r1, r2) {
        let d = (depth - 1) as nat;
        let i1 = choose|i: int|
            0 <= i < ms.len() && ms[i] == m1 && child_value(b, side, d, ms[i]) == s1 && forall|j: int|
                0 <= j < i ==> #[trigger] child_value(b, side, d, ms[j]) != s1;
        let i2 = choose|i: int|
            0 <= i < ms.len() && ms[i] == m2 && child_value(b, side, d, ms[i]) == s2 && forall|j: int|
                0 <= j < i ==> #[trigger] child_value(b, side, d, ms[j]) != s2;
        assert(s1 == s2);
        if i1 < i2 {
            assert(child_value(b, side, d, ms[i1]) != s2);
        }
        if i2 < i1 {
            assert(child_value(b, side, d, ms[i2]) != s1);
        }
    }
}

} // verus!
