//! Character-level vocabulary for cookie text: whitespace, trimming and
//! splitting at a separator, stated over `Seq<char>`.

use vstd::prelude::*;

verus! {

/// The texts of `strings`, in order.
pub open spec fn texts_of(strings: Seq<String>) -> Seq<Seq<char>> {
    strings.map_values(|s: String| s@)
}

/// Whether `c` is white space in the sense of `char::is_whitespace`.
pub open spec fn is_whitespace(c: char) -> bool {
    let n = c as u32;
    ||| 0x09 <= n <= 0x0d
    ||| n == 0x20
    ||| n == 0x85
    ||| n == 0xa0
    ||| n == 0x1680
    ||| 0x2000 <= n <= 0x200a
    ||| n == 0x2028
    ||| n == 0x2029
    ||| n == 0x202f
    ||| n == 0x205f
    ||| n == 0x3000
}

/// `s` without its leading white space.
pub open spec fn trim_start(s: Seq<char>) -> Seq<char>
    decreases s.len(),
{
    if s.len() > 0 && is_whitespace(s[0]) {
        trim_start(s.skip(1))
    } else {
        s
    }
}

/// `s` without its trailing white space.
pub open spec fn trim_end(s: Seq<char>) -> Seq<char>
    decreases s.len(),
{
    if s.len() > 0 && is_whitespace(s.last()) {
        trim_end(s.drop_last())
    } else {
        s
    }
}

/// `s` without leading and trailing white space.
pub open spec fn trim(s: Seq<char>) -> Seq<char> {
    trim_end(trim_start(s))
}

/// The part of `s` before the first occurrence of `sep`; all of `s` where
/// `sep` does not occur.
pub open spec fn before(s: Seq<char>, sep: char) -> Seq<char>
    decreases s.len(),
{
    if s.len() == 0 || s[0] == sep {
        Seq::empty()
    } else {
        seq![s[0]] + before(s.skip(1), sep)
    }
}

/// Whether `s` neither starts nor ends with white space.
pub open spec fn is_trimmed(s: Seq<char>) -> bool {
    s.len() > 0 ==> !is_whitespace(s[0]) && !is_whitespace(s.last())
}

/// `before(s, sep)` is a prefix of `s` that does not hold `sep`, and ends
/// either at the end of `s` or right in front of a `sep`.
pub proof fn lemma_before(s: Seq<char>, sep: char)
    ensures
        before(s, sep).len() <= s.len(),
        before(s, sep) == s.take(before(s, sep).len() as int),
        !before(s, sep).contains(sep),
        before(s, sep).len() < s.len() ==> s[before(s, sep).len() as int] == sep,
        !s.contains(sep) ==> before(s, sep) == s,
    decreases s.len(),
{
    if s.len() == 0 || s[0] == sep {
        assert(before(s, sep) =~= s.take(0));
        if s.len() == 0 {
            assert(before(s, sep) =~= s);
        } else {
            assert(s.contains(sep));
        }
    } else {
        let rest = s.skip(1);
        lemma_before(rest, sep);
        let b = before(rest, sep);
        let whole = seq![s[0]] + b;
        assert(whole =~= s.take(whole.len() as int));
        assert forall|i: int| 0 <= i < whole.len() implies whole[i] != sep by {
            if i > 0 {
                assert(b.contains(b[i - 1]));
            }
        }
        if !s.contains(sep) {
            assert forall|i: int| 0 <= i < rest.len() implies rest[i] != sep by {
                assert(s.contains(s[i + 1]));
            }
            assert(whole =~= s);
        }
    }
}

/// Where `sep` does not occur in `head`, the part of `head + [sep] + tail`
/// before the first `sep` is `head`.
pub proof fn lemma_before_joined(head: Seq<char>, sep: char, tail: Seq<char>)
    requires
        !head.contains(sep),
    ensures
        before(head + seq![sep] + tail, sep) == head,
    decreases head.len(),
{
    let s = head + seq![sep] + tail;
    if head.len() == 0 {
        assert(s[0] == sep);
        assert(before(s, sep) =~= head);
    } else {
        assert(head.contains(head[0]));
        assert(s[0] == head[0]);
        let h = head.skip(1);
        assert forall|i: int| 0 <= i < h.len() implies h[i] != sep by {
            assert(head.contains(head[i + 1]));
        }
        assert(s.skip(1) =~= h + seq![sep] + tail);
        lemma_before_joined(h, sep, tail);
        assert(seq![s[0]] + h =~= head);
    }
}

/// A text that neither starts nor ends with white space is its own trim.
pub proof fn lemma_trim_of_trimmed(s: Seq<char>)
    requires
        is_trimmed(s),
    ensures
        trim(s) == s,
{
}

} // verus!
