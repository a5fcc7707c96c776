//! What trimming, splitting and comparing texts come to, character by character.

use vstd::prelude::*;
use vstd::string::*;
use crate::text::{
    ascii_lower, before, decimal, decimal_text, digit, eq_ignore_ascii_case, first_index,
    is_white_space, joined, lemma_first_index, lemma_first_index_is, lemma_trimmed_end_range,
    lemma_trimmed_start_range, position, same_ignoring_ascii_case, same_text, split, split_chars,
    trim, trim_chars, trimmed, white_space,
};

verus! {

/// The code points that are white space.
pub proof fn lemma_white_space_codes(c: char)
    ensures
        white_space(c) <==> {
            ||| 9 <= c as u32 <= 13
            ||| c as u32 == 0x20
            ||| c as u32 == 0x85
            ||| c as u32 == 0xa0
            ||| c as u32 == 0x1680
            ||| 0x2000 <= c as u32 <= 0x200a
            ||| c as u32 == 0x2028
            ||| c as u32 == 0x2029
            ||| c as u32 == 0x202f
            ||| c as u32 == 0x205f
            ||| c as u32 == 0x3000
        },
{
}

/// Trimming cuts white space at both ends and nothing else: where a text is white
/// space up to `i` and from `j` on, and what stands between starts and ends with
/// other characters, that is what is left.
pub proof fn lemma_trimmed_is_the_middle(s: Seq<char>, i: int, j: int)
    requires
        0 <= i <= j <= s.len(),
        forall|k: int| 0 <= k < i ==> white_space(#[trigger] s[k]),
        forall|k: int| j <= k < s.len() ==> white_space(#[trigger] s[k]),
        i < j ==> !white_space(s[i]) && !white_space(s[j - 1]),
    ensures
        trimmed(s) == s.subrange(i, j),
{
    if i == j {
        assert forall|k: int| 0 <= k < s.len() implies white_space(#[trigger] s[k]) by {}
        lemma_trimmed_start_range(s, s.len() as int);
        assert(s.skip(s.len() as int) =~= Seq::<char>::empty());
        assert(trimmed(s) =~= s.subrange(i, j));
    } else {
        lemma_trimmed_start_range(s, i);
        let rest = s.skip(i);
        assert(rest[j - i - 1] == s[j - 1]);
        assert forall|k: int| j - i <= k < rest.len() implies white_space(#[trigger] rest[k]) by {
            assert(rest[k] == s[i + k]);
        }
        lemma_trimmed_end_range(rest, j - i);
        assert(rest.take(j - i) =~= s.subrange(i, j));
    }
}

/// Every text has such a middle.
pub proof fn lemma_trimmed_bounds(s: Seq<char>) -> (r: (int, int))
    ensures
        0 <= r.0 <= r.1 <= s.len(),
        forall|k: int| 0 <= k < r.0 ==> white_space(#[trigger] s[k]),
        forall|k: int| r.1 <= k < s.len() ==> white_space(#[trigger] s[k]),
        r.0 < r.1 ==> !white_space(s[r.0]) && !white_space(s[r.1 - 1]),
        trimmed(s) == s.subrange(r.0, r.1),
    decreases s.len(),
{
    let r = if s.len() == 0 {
        (0int, 0int)
    } else if white_space(s[0]) {
        let rest = s.drop_first();
        let (i, j) = lemma_trimmed_bounds(rest);
        assert forall|k: int| 0 <= k < i + 1 implies white_space(#[trigger] s[k]) by {
            if k > 0 {
                assert(white_space(rest[k - 1]));
            }
        }
        assert forall|k: int| j + 1 <= k < s.len() implies white_space(#[trigger] s[k]) by {
            assert(white_space(rest[k - 1]));
        }
        (i + 1, j + 1)
    } else if white_space(s.last()) {
        let rest = s.drop_last();
        let (i, j) = lemma_trimmed_bounds(rest);
        assert forall|k: int| 0 <= k < i implies white_space(#[trigger] s[k]) by {
            assert(white_space(rest[k]));
        }
        assert forall|k: int| j <= k < s.len() implies white_space(#[trigger] s[k]) by {
            if k < rest.len() {
                assert(white_space(rest[k]));
            }
        }
        (i, j)
    } else {
        (0int, s.len() as int)
    };
    lemma_trimmed_is_the_middle(s, r.0, r.1);
    r
}

/// Trimming leaves nothing exactly if there is nothing but white space.
pub proof fn lemma_trimmed_to_nothing(s: Seq<char>)
    ensures
        trimmed(s).len() > 0 <==> exists|k: int| 0 <= k < s.len() && !white_space(#[trigger] s[k]),
{
    let (i, j) = lemma_trimmed_bounds(s);
    if i < j {
        assert(!white_space(s[i]));
    }
}

/// Texts are the same but for ASCII case exactly if at each place they have the
/// same character, or an upper-case ASCII letter and its lower-case form.
pub proof fn lemma_ascii_case(a: Seq<char>, b: Seq<char>)
    ensures
        same_ignoring_ascii_case(a, b) <==> a.len() == b.len() && forall|i: int|
            0 <= i < a.len() ==> {
                ||| #[trigger] a[i] == b[i]
                ||| 65 <= a[i] as u32 <= 90 && b[i] as u32 == a[i] as u32 + 32
                ||| 65 <= b[i] as u32 <= 90 && a[i] as u32 == b[i] as u32 + 32
            },
{
    if same_ignoring_ascii_case(a, b) {
        assert forall|i: int| 0 <= i < a.len() implies {
            ||| #[trigger] a[i] == b[i]
            ||| 65 <= a[i] as u32 <= 90 && b[i] as u32 == a[i] as u32 + 32
            ||| 65 <= b[i] as u32 <= 90 && a[i] as u32 == b[i] as u32 + 32
        } by {
            assert(ascii_lower(a[i]) == ascii_lower(b[i]));
        }
    }
}

/// Whether `c` is nowhere in `s`.
pub open spec fn free_of<T>(s: Seq<T>, c: T) -> bool {
    forall|i: int| 0 <= i < s.len() ==> #[trigger] s[i] != c
}

/// Whether `piece` stands in `s` between `left` and `right`, with a separator or the
/// edge of `s` on either side.
pub open spec fn piece_between<T>(
    s: Seq<T>,
    c: T,
    left: Seq<T>,
    piece: Seq<T>,
    right: Seq<T>,
) -> bool {
    &&& s == left + piece + right
    &&& free_of(piece, c)
    &&& left.len() == 0 || left.last() == c
    &&& right.len() == 0 || right[0] == c
}

/// What stands before the first `c`: it has no `c` in it, and a `c` or nothing
/// follows.
pub proof fn lemma_before<T>(s: Seq<T>, c: T, head: Seq<T>, tail: Seq<T>)
    requires
        s == head + tail,
        free_of(head, c),
        tail.len() == 0 || tail[0] == c,
    ensures
        first_index(s, c) == head.len(),
        before(s, c) == head,
{
    assert forall|j: int| 0 <= j < head.len() implies s[j] != c by {
        assert(s[j] == head[j]);
    }
    lemma_first_index_is(s, c, head.len() as int);
    assert(s.take(head.len() as int) =~= head);
}

/// Each piece of a split stands between separators, and all but the first have a
/// separator before them.
pub proof fn lemma_split_pieces<T>(s: Seq<T>, c: T, k: int) -> (r: (Seq<T>, Seq<T>))
    requires
        0 <= k < split(s, c).len(),
    ensures
        piece_between(s, c, r.0, split(s, c)[k], r.1),
        k > 0 ==> r.0.len() > 0,
    decreases s.len(),
{
    let i = first_index(s, c);
    lemma_first_index(s, c);
    if i >= s.len() {
        assert(s =~= Seq::<T>::empty() + s + Seq::<T>::empty());
        (Seq::empty(), Seq::empty())
    } else if k == 0 {
        let piece = s.take(i);
        assert(split(s, c)[0] == piece);
        assert(s =~= Seq::<T>::empty() + piece + s.skip(i));
        (Seq::empty(), s.skip(i))
    } else {
        let rest = s.skip(i + 1);
        let piece = split(s, c)[k];
        assert(piece == split(rest, c)[k - 1]);
        let (left, right) = lemma_split_pieces(rest, c, k - 1);
        let whole_left = s.take(i + 1) + left;
        assert(s =~= whole_left + piece + right) by {
            assert(s =~= s.take(i + 1) + rest);
        }
        if left.len() > 0 {
            assert(whole_left.last() == left.last());
        } else {
            assert(whole_left.last() == s[i]);
        }
        (whole_left, right)
    }
}

/// What stands between separators is a piece of a split, and not the first where a
/// separator comes before it.
pub proof fn lemma_piece_is_split<T>(
    s: Seq<T>,
    c: T,
    left: Seq<T>,
    piece: Seq<T>,
    right: Seq<T>,
) -> (k: int)
    requires
        piece_between(s, c, left, piece, right),
    ensures
        0 <= k < split(s, c).len(),
        split(s, c)[k] == piece,
        left.len() > 0 ==> k > 0,
    decreases s.len(),
{
    let i = first_index(s, c);
    lemma_first_index(s, c);
    if left.len() == 0 {
        lemma_before(s, c, piece, right);
        assert(s =~= piece + right);
        if right.len() == 0 {
            assert(s =~= piece);
        } else {
            assert(s.take(i) =~= piece);
        }
        0
    } else {
        let last = left.len() - 1;
        assert(s[last] == left[last]);
        assert(i <= last) by {
            if i > last {
                assert(s[last] != c);
            }
        }
        let rest = s.skip(i + 1);
        let rest_left = left.skip(i + 1);
        assert(rest =~= rest_left + piece + right);
        if rest_left.len() > 0 {
            assert(rest_left.last() == left.last());
        }
        let k = lemma_piece_is_split(rest, c, rest_left, piece, right);
        assert(split(s, c)[k + 1] == split(rest, c)[k]);
        k + 1
    }
}

/// The number that a run of decimal digits stands for.
pub open spec fn decimal_value(digits: Seq<char>) -> int
    decreases digits.len(),
{
    if digits.len() == 0 {
        0
    } else {
        10 * decimal_value(digits.drop_last()) + (digits.last() as u32 - 48)
    }
}

/// A number is written in decimal digits that stand for it, without leading zeros.
pub proof fn lemma_decimal(n: nat)
    ensures
        decimal_value(decimal(n)) == n,
        forall|i: int| 0 <= i < decimal(n).len() ==> 48 <= (#[trigger] decimal(n)[i]) as u32 <= 57,
        decimal(n).len() > 0,
        decimal(n).len() > 1 ==> decimal(n)[0] as u32 != 48,
    decreases n,
{
    let t = decimal(n);
    reveal_with_fuel(decimal_value, 2);
    if n < 10 {
        assert(t.drop_last() =~= Seq::<char>::empty());
    } else {
        lemma_decimal(n / 10);
        assert(t.drop_last() =~= decimal(n / 10));
        if n / 10 < 10 {
            assert(decimal(n / 10) =~= seq![digit(n / 10)]);
        }
    }
}

/// Trimming a text by its characters: what is white space at its ends goes, the rest
/// stays.
pub proof fn lemma_trim_calls(
    text: &str,
    r: &str,
    chars: &Vec<char>,
    s: Vec<char>,
    left: Seq<char>,
    core: Seq<char>,
    right: Seq<char>,
)
    requires
        call_ensures(trim, (text,), r),
        call_ensures(trim_chars, (chars,), s),
        text@ == left + core + right,
        chars@ == text@,
        forall|i: int| 0 <= i < left.len() ==> white_space(#[trigger] left[i]),
        forall|i: int| 0 <= i < right.len() ==> white_space(#[trigger] right[i]),
        core.len() > 0 ==> !white_space(core[0]) && !white_space(core.last()),
    ensures
        r@ == core,
        s@ == core,
{
    let t = text@;
    let i = left.len() as int;
    let j = i + core.len();
    assert forall|k: int| 0 <= k < i implies white_space(#[trigger] t[k]) by {
        assert(white_space(left[k]));
    }
    assert forall|k: int| j <= k < t.len() implies white_space(#[trigger] t[k]) by {
        assert(white_space(right[k - j]));
    }
    if i < j {
        assert(t[i] == core[0] && t[j - 1] == core.last());
    }
    lemma_trimmed_is_the_middle(t, i, j);
    assert(t.subrange(i, j) =~= core);
}

/// A character is white space by its code.
pub proof fn lemma_white_space_calls(c: char, r: bool)
    requires
        call_ensures(is_white_space, (c,), r),
    ensures
        r <==> {
            ||| 9 <= c as u32 <= 13
            ||| c as u32 == 0x20
            ||| c as u32 == 0x85
            ||| c as u32 == 0xa0
            ||| c as u32 == 0x1680
            ||| 0x2000 <= c as u32 <= 0x200a
            ||| c as u32 == 0x2028
            ||| c as u32 == 0x2029
            ||| c as u32 == 0x202f
            ||| c as u32 == 0x205f
            ||| c as u32 == 0x3000
        },
{
    lemma_white_space_codes(c);
}

/// Texts are compared place by place, and only the case of ASCII letters is let pass.
pub proof fn lemma_case_calls(a: &Vec<char>, b: &str, r: bool)
    requires
        call_ensures(eq_ignore_ascii_case, (a, b), r),
    ensures
        r <==> a@.len() == b@.len() && forall|i: int|
            0 <= i < a@.len() ==> {
                ||| #[trigger] a@[i] == b@[i]
                ||| 65 <= a@[i] as u32 <= 90 && b@[i] as u32 == a@[i] as u32 + 32
                ||| 65 <= b@[i] as u32 <= 90 && a@[i] as u32 == b@[i] as u32 + 32
            },
{
    lemma_ascii_case(a@, b@);
}

/// The position of a character is that of its first occurrence, or the length of a text in
/// which it does not occur.
pub proof fn lemma_position_calls(s: &Vec<char>, c: char, r: usize)
    requires
        call_ensures(position, (s, c), r),
    ensures
        r <= s@.len(),
        forall|i: int| 0 <= i < r ==> #[trigger] s@[i] != c,
        r < s@.len() ==> s@[r as int] == c,
{
    lemma_first_index(s@, c);
}

/// Pieces with a separator between each two.
pub open spec fn joined_by<T>(pieces: Seq<Seq<T>>, c: T) -> Seq<T>
    decreases pieces.len(),
{
    if pieces.len() == 0 {
        Seq::empty()
    } else if pieces.len() == 1 {
        pieces[0]
    } else {
        pieces[0] + seq![c] + joined_by(pieces.drop_first(), c)
    }
}

proof fn lemma_split_joins<T>(s: Seq<T>, c: T)
    ensures
        split(s, c).len() > 0,
        joined_by(split(s, c), c) == s,
        forall|k: int| 0 <= k < split(s, c).len() ==> free_of(#[trigger] split(s, c)[k], c),
    decreases s.len(),
{
    let i = first_index(s, c);
    lemma_first_index(s, c);
    let all = split(s, c);
    if i < s.len() {
        let rest = s.skip(i + 1);
        lemma_split_joins(rest, c);
        assert(all.drop_first() =~= split(rest, c));
        assert(s =~= s.take(i) + seq![c] + rest);
        assert forall|k: int| 0 <= k < all.len() implies free_of(#[trigger] all[k], c) by {
            if k > 0 {
                assert(all[k] == split(rest, c)[k - 1]);
            }
        }
    } else {
        assert(joined_by(all, c) =~= s);
    }
}

/// Splitting cuts at every separator and loses nothing: the pieces with separators between
/// them make up the text, and no separator stands in a piece.
pub proof fn lemma_split_calls(s: &Vec<char>, c: char, r: Vec<Vec<char>>)
    requires
        call_ensures(split_chars, (s, c), r),
    ensures
        r@.len() > 0,
        joined_by(r@.map_values(|piece: Vec<char>| piece@), c) == s@,
        forall|k: int| 0 <= k < r@.len() ==> free_of((#[trigger] r@[k])@, c),
{
    lemma_split_joins(s@, c);
    assert(r@.map_values(|piece: Vec<char>| piece@) =~= split(s@, c));
    assert forall|k: int| 0 <= k < r@.len() implies free_of((#[trigger] r@[k])@, c) by {
        assert(free_of(split(s@, c)[k], c));
    }
}

/// A number is written in digits that stand for it, without leading zeros.
pub proof fn lemma_decimal_calls(n: usize, r: String)
    requires
        call_ensures(decimal_text, (n,), r),
    ensures
        decimal_value(r@) == n,
        forall|i: int| 0 <= i < r@.len() ==> 48 <= (#[trigger] r@[i]) as u32 <= 57,
        r@.len() > 1 ==> r@[0] as u32 != 48,
{
    lemma_decimal(n as nat);
}

/// Joining puts one text behind the other, and texts are the same only where all their
/// characters are.
pub proof fn lemma_whole_texts(a: &str, b: &str, both: String, same: bool)
    requires
        call_ensures(joined, (a, b), both),
        call_ensures(same_text, (a, b), same),
    ensures
        both@ == a@ + b@,
        same <==> a@.len() == b@.len() && forall|i: int|
            0 <= i < a@.len() ==> #[trigger] a@[i] == b@[i],
{
    if a@.len() == b@.len() && forall|i: int| 0 <= i < a@.len() ==> #[trigger] a@[i] == b@[i] {
        assert(a@ =~= b@);
    }
}

} // verus!
