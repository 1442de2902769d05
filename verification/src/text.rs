//! Characters and character sequences: predicates on single characters,
//! scanning for a character inside a range, splitting a range on `|`, the
//! numeric value of a run of digits, and small verified vector helpers.

use vstd::prelude::*;
use vstd::string::*;

verus! {

/// A decimal digit `0` ..= `9`.
pub open spec fn is_digit_char(c: char) -> bool {
    48 <= c as u32 <= 57
}

/// The numeric value of a decimal digit.
pub open spec fn digit_val(c: char) -> nat
    recommends
        is_digit_char(c),
{
    (c as u32 - 48) as nat
}

/// Whether `char::is_alphabetic` holds of `c`.  The Unicode `Alphabetic`
/// property is far too large to state here; the result depends on the
/// character alone, so it is only given a name.
pub uninterp spec fn is_alphabetic_char(c: char) -> bool;

/// A word character: a letter or a digit (no underscore).
pub open spec fn is_word_char(c: char) -> bool {
    is_alphabetic_char(c) || is_digit_char(c)
}

/// Relies on `char::is_alphabetic` (std): whether the character is a Unicode
/// letter, a property of the character alone.
#[verifier::external_body]
pub(crate) fn char_is_alphabetic(c: char) -> (r: bool)
    ensures
        r == is_alphabetic_char(c),
{
    c.is_alphabetic()
}

/// Executable check for a decimal digit.
pub(crate) fn char_is_digit(c: char) -> (r: bool)
    ensures
        r == is_digit_char(c),
{
    let u = c as u32;
    48 <= u && u <= 57
}

/// The first index in `[from, to)` where `t` holds `ch`, if any.
pub open spec fn find_in(t: Seq<char>, ch: char, from: int, to: int) -> Option<int>
    decreases to - from,
    when from <= to
{
    if from >= to {
        None
    } else if t[from] == ch {
        Some(from)
    } else {
        find_in(t, ch, from + 1, to)
    }
}

/// What `find_in` returns: an index of `ch` within the range, with nothing
/// equal to `ch` before it; `None` only when the range holds no `ch`.
pub proof fn lemma_find_in(t: Seq<char>, ch: char, from: int, to: int)
    requires
        from <= to,
    ensures
        match find_in(t, ch, from, to) {
            Some(m) => from <= m < to && t[m] == ch && forall|j: int|
                from <= j < m ==> t[j] != ch,
            None => forall|j: int| from <= j < to ==> t[j] != ch,
        },
    decreases to - from,
{
    if from < to && t[from] != ch {
        lemma_find_in(t, ch, from + 1, to);
    }
}

/// The pieces of `t[from..to)` split on `|`: the text of each alternative of
/// an alternation group.  Splitting an empty range yields one empty piece.
pub open spec fn split_range(t: Seq<char>, from: int, to: int) -> Seq<Seq<char>>
    decreases to - from,
    when from <= to
{
    match find_in(t, '|', from, to) {
        None => seq![t.subrange(from, to)],
        Some(m) => {
            proof {
                lemma_find_in(t, '|', from, to);
            }
            seq![t.subrange(from, m)] + split_range(t, m + 1, to)
        },
    }
}

/// Every piece of a split is no longer than the range it was cut from.
pub proof fn lemma_split_range_piece_len(t: Seq<char>, from: int, to: int)
    requires
        0 <= from <= to <= t.len(),
    ensures
        forall|j: int|
            0 <= j < split_range(t, from, to).len() ==> (#[trigger] split_range(
                t,
                from,
                to,
            )[j]).len() <= to - from,
    decreases to - from,
{
    lemma_find_in(t, '|', from, to);
    match find_in(t, '|', from, to) {
        None => {},
        Some(m) => {
            lemma_split_range_piece_len(t, m + 1, to);
            let ps = split_range(t, from, to);
            let rest = split_range(t, m + 1, to);
            assert(ps == seq![t.subrange(from, m)] + rest);
            assert forall|j: int| 0 <= j < ps.len() implies (#[trigger] ps[j]).len() <= to - from
                by {
                if j == 0 {
                    assert(ps[0] == t.subrange(from, m));
                } else {
                    assert(ps[j] == rest[j - 1]);
                    assert(rest[j - 1].len() <= to - (m + 1));
                }
            }
        },
    }
}

/// The value of the digit run `t[from..to)` read as a decimal number.
pub open spec fn digits_value(t: Seq<char>, from: int, to: int) -> nat
    decreases to - from,
    when from <= to
{
    if from >= to {
        0
    } else {
        digits_value(t, from, to - 1) * 10 + digit_val(t[to - 1])
    }
}

/// Reading more digits never makes the value smaller.
pub proof fn lemma_digits_value_monotone(t: Seq<char>, from: int, mid: int, to: int)
    requires
        from <= mid <= to,
    ensures
        digits_value(t, from, mid) <= digits_value(t, from, to),
    decreases to - mid,
{
    if mid < to {
        lemma_digits_value_monotone(t, from, mid, to - 1);
        assert(digits_value(t, from, to - 1) <= digits_value(t, from, to - 1) * 10);
    }
}

/// The end of the run of digits starting at `from`: the first index in
/// `[from, to)` holding a non-digit, or `to`.
pub open spec fn digit_run_end(t: Seq<char>, from: int, to: int) -> int
    decreases to - from,
    when from <= to
{
    if from >= to || !is_digit_char(t[from]) {
        from
    } else {
        digit_run_end(t, from + 1, to)
    }
}

/// The digit run reaches from `from` to its end: digits inside, a non-digit
/// (or the range's end) just after.
pub proof fn lemma_digit_run_end(t: Seq<char>, from: int, to: int)
    requires
        from <= to,
    ensures
        from <= digit_run_end(t, from, to) <= to,
        forall|j: int| from <= j < digit_run_end(t, from, to) ==> is_digit_char(#[trigger] t[j]),
        digit_run_end(t, from, to) < to ==> !is_digit_char(t[digit_run_end(t, from, to)]),
    decreases to - from,
{
    if from < to && is_digit_char(t[from]) {
        lemma_digit_run_end(t, from + 1, to);
    }
}

/// The deep view of a vector of characters is its view.
pub proof fn lemma_char_vec_deep_view(v: Vec<char>)
    ensures
        v.deep_view() == v@,
{
    assert(v.deep_view() =~= v@);
}

/// The characters of `s`, in order, as a vector.
pub(crate) fn to_char_vec(s: &str) -> (v: Vec<char>)
    ensures
        v@ == s@,
{
    let n = s.unicode_len();
    let mut v: Vec<char> = Vec::new();
    let mut i: usize = 0;
    while i < n
        invariant
            i <= n,
            n == s@.len(),
            v@ =~= s@.subrange(0, i as int),
        decreases n - i,
    {
        let c = s.get_char(i);
        v.push(c);
        i = i + 1;
    }
    proof {
        assert(v@ =~= s@);
    }
    v
}

/// A copy of `input[from..to)`.
pub(crate) fn copy_range(input: &Vec<char>, from: usize, to: usize) -> (v: Vec<char>)
    requires
        from <= to <= input.len(),
    ensures
        v@ == input@.subrange(from as int, to as int),
{
    let mut v: Vec<char> = Vec::new();
    let mut i: usize = from;
    while i < to
        invariant
            from <= i <= to <= input.len(),
            v@ =~= input@.subrange(from as int, i as int),
        decreases to - i,
    {
        let c = input[i];
        v.push(c);
        i = i + 1;
    }
    proof {
        assert(v@ =~= input@.subrange(from as int, to as int));
    }
    v
}

/// Whether `members` holds `c`.
pub(crate) fn contains_char(members: &Vec<char>, c: char) -> (r: bool)
    ensures
        r == members@.contains(c),
{
    let mut i: usize = 0;
    while i < members.len()
        invariant
            i <= members.len(),
            forall|j: int| 0 <= j < i ==> members@[j] != c,
        decreases members.len() - i,
    {
        if members[i] == c {
            return true;
        }
        i = i + 1;
    }
    false
}

/// The first index in `[from, to)` where `input` holds `ch`, if any.
pub(crate) fn find_char(input: &Vec<char>, ch: char, from: usize, to: usize) -> (r: Option<
    usize,
>)
    requires
        from <= to <= input.len(),
    ensures
        match r {
            Some(m) => find_in(input@, ch, from as int, to as int) == Some(m as int),
            None => find_in(input@, ch, from as int, to as int) is None,
        },
{
    let mut i: usize = from;
    while i < to
        invariant
            from <= i <= to <= input.len(),
            find_in(input@, ch, from as int, to as int) == find_in(
                input@,
                ch,
                i as int,
                to as int,
            ),
        decreases to - i,
    {
        if input[i] == ch {
            return Some(i);
        }
        i = i + 1;
    }
    None
}

} // verus!
