//! Square names ("e4") and move text ("e2e4", "a7a8q").
use vstd::prelude::*;
use vstd::string::{StrSliceExecFns, StringExecFns};
use crate::board::Move;
use crate::move_piece::{apply_move, en_passant_after, move_piece, piece_at, MoveError};

verus! {

/// The file letters, a to h.
pub open spec fn file_letters() -> Seq<char> {
    seq!['a', 'b', 'c', 'd', 'e', 'f', 'g', 'h']
}

/// The rank digits, 1 to 8.
pub open spec fn rank_digits() -> Seq<char> {
    seq!['1', '2', '3', '4', '5', '6', '7', '8']
}

/// The square named by `s`: a file letter then a rank digit.
pub open spec fn square_index(s: Seq<char>) -> Option<int> {
    if s.len() == 2 && 97 <= s[0] as u32 <= 104 && 49 <= s[1] as u32 <= 56 {
        Some((s[1] as u32 - 49) * 8 + (s[0] as u32 - 97))
    } else {
        None
    }
}

/// The name of square `i`.
pub open spec fn square_name(i: int) -> Seq<char> {
    seq![file_letters()[i % 8], rank_digits()[i / 8]]
}

/// Whether `c` names a promotion: queen, rook, bishop or knight.
pub open spec fn is_promotion_letter(c: char) -> bool {
    c == 'q' || c == 'r' || c == 'b' || c == 'n'
}

/// The move that `s` writes: source and destination square names, then
/// an optional promotion letter.
pub open spec fn parse_move(s: Seq<char>) -> Option<Move> {
    if s.len() != 4 && s.len() != 5 {
        None
    } else {
        match (square_index(s.subrange(0, 2)), square_index(s.subrange(2, 4))) {
            (Some(f), Some(t)) => if s.len() == 4 {
                Some((f as u8, t as u8, None))
            } else if is_promotion_letter(s[4]) {
                Some((f as u8, t as u8, Some(s[4])))
            } else {
                None
            },
            _ => None,
        }
    }
}

/// The index of the square that `square` names, or `None` when it is not a
/// file letter a to h followed by a rank digit 1 to 8.
pub fn square_to_index(square: &str) -> (r: Option<u8>)
    ensures
        r matches Some(i) ==> square_index(square@) == Some(i as int),
        r is None ==> square_index(square@) is None,
{
    if square.unicode_len() != 2 {
        return None;
    }
    let file = square.get_char(0) as u32;
    let rank = square.get_char(1) as u32;
    if file < 97 || file > 104 || rank < 49 || rank > 56 {
        return None;
    }
    Some(((rank - 49) * 8 + (file - 97)) as u8)
}

/// The name of square `index`.
pub fn index_to_square(index: u8) -> (r: String)
    requires
        index < 64,
    ensures
        r@ == square_name(index as int),
{
    let files = "abcdefgh";
    let ranks = "12345678";
    proof {
        reveal_strlit("abcdefgh");
        reveal_strlit("12345678");
        assert(files@ =~= file_letters());
        assert(ranks@ =~= rank_digits());
    }
    let f = (index % 8) as usize;
    let k = (index / 8) as usize;
    let mut r = String::from_str(files.substring_char(f, f + 1));
    r.append(ranks.substring_char(k, k + 1));
    assert(r@ =~= square_name(index as int));
    r
}

/// Applies the move that `mv` writes. Fails, changing nothing, when `mv` is
/// not two square names with an optional promotion letter, or when no
/// piece stands on its source square.
pub fn handle_move(boards: &mut [u64; 12], mv: &str, en_passant: &mut Option<u8>) -> (r: Result<
    (),
    MoveError,
>)
    ensures
        parse_move(mv@) is None ==> r == Err::<(), MoveError>(MoveError::Malformed) && *final(boards)
            == *old(boards) && *final(en_passant) == *old(en_passant),
        parse_move(mv@) matches Some(m) ==> {
            &&& final(boards)@ == apply_move(old(boards)@, m)
            &&& *final(en_passant) == en_passant_after(old(boards)@, m, *old(en_passant))
            &&& (r is Ok <==> piece_at(old(boards)@, m.0 as int) is Some)
            &&& (r is Err ==> r == Err::<(), MoveError>(MoveError::EmptySquare))
        },
{
    let n = mv.unicode_len();
    if n != 4 && n != 5 {
        return Err(MoveError::Malformed);
    }
    let from = square_to_index(mv.substring_char(0, 2));
    let to = square_to_index(mv.substring_char(2, 4));
    let (from, to) = match (from, to) {
        (Some(f), Some(t)) => (f, t),
        _ => {
            return Err(MoveError::Malformed);
        },
    };
    let promotion = if n == 5 {
        let c = mv.get_char(4);
        if !(c == 'q' || c == 'r' || c == 'b' || c == 'n') {
            return Err(MoveError::Malformed);
        }
        Some(c)
    } else {
        None
    };
    move_piece(boards, (from, to, promotion), en_passant)
}

} // verus!
