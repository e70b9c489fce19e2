//! Whitespace, trimming and the search for a character in a sequence of
//! characters, with the executable scanners that compute them on a buffer.

use vstd::prelude::*;

verus! {

/// The characters that separate tokens: space, tab, carriage return, line feed.
pub open spec fn is_whitespace(c: char) -> bool {
    c == ' ' || c == '\t' || c == '\r' || c == '\n'
}

/// How many whitespace characters `s` begins with.
pub open spec fn leading_whitespace(s: Seq<char>) -> nat
    decreases s.len(),
{
    if s.len() > 0 && is_whitespace(s[0]) {
        1 + leading_whitespace(s.drop_first())
    } else {
        0
    }
}

/// How many whitespace characters `s` ends with.
pub open spec fn trailing_whitespace(s: Seq<char>) -> nat
    decreases s.len(),
{
    if s.len() > 0 && is_whitespace(s.last()) {
        1 + trailing_whitespace(s.drop_last())
    } else {
        0
    }
}

/// `s` without the whitespace it begins with.
pub open spec fn trim_start(s: Seq<char>) -> Seq<char> {
    s.skip(leading_whitespace(s) as int)
}

/// `s` without the whitespace at either end.
pub open spec fn trim(s: Seq<char>) -> Seq<char> {
    let t = trim_start(s);
    t.take(t.len() - trailing_whitespace(t))
}

/// The index of the first character of `s` that is `a` or `b`, or the length
/// of `s` where it holds neither.
pub open spec fn position(s: Seq<char>, a: char, b: char) -> nat
    decreases s.len(),
{
    if s.len() == 0 || s[0] == a || s[0] == b {
        0
    } else {
        1 + position(s.drop_first(), a, b)
    }
}

/// `leading_whitespace(s)` is the one index before which all is whitespace and
/// at which `s` ends or holds something else.
pub proof fn lemma_leading_whitespace(s: Seq<char>, k: int)
    requires
        0 <= k <= s.len(),
        forall|j: int| 0 <= j < k ==> is_whitespace(#[trigger] s[j]),
        k < s.len() ==> !is_whitespace(s[k]),
    ensures
        leading_whitespace(s) == k,
    decreases s.len(),
{
    if k > 0 {
        let t = s.drop_first();
        assert forall|j: int| 0 <= j < k - 1 implies is_whitespace(#[trigger] t[j]) by {
            assert(t[j] == s[j + 1]);
        }
        lemma_leading_whitespace(t, k - 1);
    }
}

/// What `leading_whitespace(s)` counts is whitespace, and it stops at the
/// first character that is not.
pub proof fn lemma_leading_whitespace_stops(s: Seq<char>)
    ensures
        leading_whitespace(s) <= s.len(),
        forall|j: int| 0 <= j < leading_whitespace(s) ==> is_whitespace(#[trigger] s[j]),
        leading_whitespace(s) < s.len() ==> !is_whitespace(s[leading_whitespace(s) as int]),
    decreases s.len(),
{
    if s.len() > 0 && is_whitespace(s[0]) {
        let t = s.drop_first();
        lemma_leading_whitespace_stops(t);
        assert forall|j: int| 0 <= j < leading_whitespace(s) implies is_whitespace(
            #[trigger] s[j],
        ) by {
            if j > 0 {
                assert(s[j] == t[j - 1]);
            }
        }
        if leading_whitespace(s) < s.len() {
            assert(s[leading_whitespace(s) as int] == t[leading_whitespace(t) as int]);
        }
    }
}

/// `trailing_whitespace(s)` is the one count of final characters that are all
/// whitespace and before which `s` begins or holds something else.
pub proof fn lemma_trailing_whitespace(s: Seq<char>, k: int)
    requires
        0 <= k <= s.len(),
        forall|j: int| s.len() - k <= j < s.len() ==> is_whitespace(#[trigger] s[j]),
        k < s.len() ==> !is_whitespace(s[s.len() - k - 1]),
    ensures
        trailing_whitespace(s) == k,
    decreases s.len(),
{
    if k > 0 {
        let t = s.drop_last();
        assert forall|j: int| t.len() - (k - 1) <= j < t.len() implies is_whitespace(
            #[trigger] t[j],
        ) by {
            assert(t[j] == s[j]);
        }
        lemma_trailing_whitespace(t, k - 1);
    }
}

/// What `trailing_whitespace(s)` counts is whitespace, and before it stands
/// a character that is not, or nothing.
pub proof fn lemma_trailing_whitespace_stops(s: Seq<char>)
    ensures
        trailing_whitespace(s) <= s.len(),
        forall|j: int|
            s.len() - trailing_whitespace(s) <= j < s.len() ==> is_whitespace(#[trigger] s[j]),
        trailing_whitespace(s) < s.len() ==> !is_whitespace(
            s[s.len() - trailing_whitespace(s) - 1],
        ),
    decreases s.len(),
{
    if s.len() > 0 && is_whitespace(s.last()) {
        let t = s.drop_last();
        lemma_trailing_whitespace_stops(t);
        assert forall|j: int| s.len() - trailing_whitespace(s) <= j < s.len() implies is_whitespace(
            #[trigger] s[j],
        ) by {
            if j < s.len() - 1 {
                assert(s[j] == t[j]);
            }
        }
        if trailing_whitespace(s) < s.len() {
            assert(s[s.len() - trailing_whitespace(s) - 1] == t[t.len() - trailing_whitespace(t)
                - 1]);
        }
    }
}

/// `position(s, a, b)` is the one index before which neither `a` nor `b`
/// occurs and at which `s` ends or holds one of them.
pub proof fn lemma_position(s: Seq<char>, a: char, b: char, k: int)
    requires
        0 <= k <= s.len(),
        forall|j: int| 0 <= j < k ==> #[trigger] s[j] != a && s[j] != b,
        k < s.len() ==> s[k] == a || s[k] == b,
    ensures
        position(s, a, b) == k,
    decreases s.len(),
{
    if k > 0 {
        let t = s.drop_first();
        assert(s[0] != a && s[0] != b);
        assert forall|j: int| 0 <= j < k - 1 implies #[trigger] t[j] != a && t[j] != b by {
            assert(t[j] == s[j + 1]);
        }
        lemma_position(t, a, b, k - 1);
    }
}

/// Before `position(s, a, b)` neither `a` nor `b` occurs, and at it stands one
/// of them unless `s` ends there.
pub proof fn lemma_position_stops(s: Seq<char>, a: char, b: char)
    ensures
        position(s, a, b) <= s.len(),
        forall|j: int| 0 <= j < position(s, a, b) ==> #[trigger] s[j] != a && s[j] != b,
        position(s, a, b) < s.len() ==> s[position(s, a, b) as int] == a || s[position(
            s,
            a,
            b,
        ) as int] == b,
    decreases s.len(),
{
    if !(s.len() == 0 || s[0] == a || s[0] == b) {
        let t = s.drop_first();
        lemma_position_stops(t, a, b);
        assert forall|j: int| 0 <= j < position(s, a, b) implies #[trigger] s[j] != a && s[j]
            != b by {
            if j > 0 {
                assert(s[j] == t[j - 1]);
            }
        }
        if position(s, a, b) < s.len() {
            assert(s[position(s, a, b) as int] == t[position(t, a, b) as int]);
        }
    }
}

/// Trimming leaves no whitespace at either end, and nothing is left only
/// where `s` is all whitespace.
pub proof fn lemma_trim_is_tight(s: Seq<char>)
    ensures
        trim(s).len() <= s.len(),
        trim(s).len() > 0 ==> !is_whitespace(trim(s).first()) && !is_whitespace(trim(s).last()),
        trim(s).len() == 0 <==> leading_whitespace(s) == s.len(),
{
    lemma_leading_whitespace_stops(s);
    let t = trim_start(s);
    lemma_trailing_whitespace_stops(t);
    if t.len() > 0 {
        assert(t[0] == s[leading_whitespace(s) as int]);
        if trailing_whitespace(t) == t.len() {
            assert(is_whitespace(t[0]));
        }
    }
}

/// Tells whether `c` separates tokens.
pub fn is_space(c: char) -> (r: bool)
    ensures
        r == is_whitespace(c),
{
    c == ' ' || c == '\t' || c == '\r' || c == '\n'
}

/// The characters of `s`, in order.
pub fn characters(s: &str) -> (chars: Vec<char>)
    ensures
        chars@ == s@,
{
    let mut chars: Vec<char> = Vec::new();
    for c in it: s.chars()
        invariant
            chars@ == it.seq().take(it.index()),
            it.seq() == s@,
    {
        chars.push(c);
    }
    chars
}

/// The index of the first character at or after `from` that is not whitespace.
pub(crate) fn skip_whitespace(chars: &Vec<char>, from: usize) -> (to: usize)
    requires
        from <= chars.len(),
    ensures
        from <= to <= chars.len(),
        to == from + leading_whitespace(chars@.skip(from as int)),
{
    let mut to: usize = from;
    while to < chars.len() && is_space(chars[to])
        invariant
            from <= to <= chars.len(),
            forall|j: int| from <= j < to ==> is_whitespace(#[trigger] chars@[j]),
        decreases chars.len() - to,
    {
        to = to + 1;
    }
    proof {
        let s = chars@.skip(from as int);
        assert forall|j: int| 0 <= j < to - from implies is_whitespace(#[trigger] s[j]) by {
            assert(s[j] == chars@[from + j]);
        }
        lemma_leading_whitespace(s, to - from);
    }
    to
}

/// The index of the first character at or after `from` that is `a` or `b`, or
/// the buffer's length.
pub(crate) fn find(chars: &Vec<char>, from: usize, a: char, b: char) -> (at: usize)
    requires
        from <= chars.len(),
    ensures
        from <= at <= chars.len(),
        at == from + position(chars@.skip(from as int), a, b),
        at < chars.len() ==> chars@[at as int] == a || chars@[at as int] == b,
{
    let mut at: usize = from;
    while at < chars.len() && chars[at] != a && chars[at] != b
        invariant
            from <= at <= chars.len(),
            forall|j: int| from <= j < at ==> #[trigger] chars@[j] != a && chars@[j] != b,
        decreases chars.len() - at,
    {
        at = at + 1;
    }
    proof {
        let s = chars@.skip(from as int);
        assert forall|j: int| 0 <= j < at - from implies #[trigger] s[j] != a && s[j] != b by {
            assert(s[j] == chars@[from + j]);
        }
        lemma_position(s, a, b, at - from);
    }
    at
}

/// The bounds of what trimming leaves of the characters from `from` up to `to`.
pub(crate) fn trim_range(chars: &Vec<char>, from: usize, to: usize) -> (r: (usize, usize))
    requires
        from <= to <= chars.len(),
    ensures
        from <= r.0 <= r.1 <= to,
        chars@.subrange(r.0 as int, r.1 as int) == trim(chars@.subrange(from as int, to as int)),
{
    let mut lo: usize = from;
    while lo < to && is_space(chars[lo])
        invariant
            from <= lo <= to <= chars.len(),
            forall|j: int| from <= j < lo ==> is_whitespace(#[trigger] chars@[j]),
        decreases to - lo,
    {
        lo = lo + 1;
    }
    let mut hi: usize = to;
    while lo < hi && is_space(chars[hi - 1])
        invariant
            lo <= hi <= to <= chars.len(),
            forall|j: int| hi <= j < to ==> is_whitespace(#[trigger] chars@[j]),
        decreases hi - lo,
    {
        hi = hi - 1;
    }
    proof {
        let s = chars@.subrange(from as int, to as int);
        assert forall|j: int| 0 <= j < lo - from implies is_whitespace(#[trigger] s[j]) by {
            assert(s[j] == chars@[from + j]);
        }
        lemma_leading_whitespace(s, lo - from);
        let t = trim_start(s);
        assert(t =~= chars@.subrange(lo as int, to as int));
        assert forall|j: int| t.len() - (to - hi) <= j < t.len() implies is_whitespace(
            #[trigger] t[j],
        ) by {
            assert(t[j] == chars@[lo + j]);
        }
        if to - hi < t.len() {
            assert(t[t.len() - (to - hi) - 1] == chars@[hi - 1]);
        }
        lemma_trailing_whitespace(t, to - hi);
        assert(trim(s) =~= chars@.subrange(lo as int, hi as int));
    }
    (lo, hi)
}

/// Tells whether the characters from `from` up to `to` spell `word`.
pub(crate) fn spells(chars: &Vec<char>, from: usize, to: usize, word: &str) -> (r: bool)
    requires
        from <= to <= chars.len(),
    ensures
        r == (chars@.subrange(from as int, to as int) == word@),
{
    let n: usize = word.unicode_len();
    if to - from != n {
        return false;
    }
    let mut i: usize = 0;
    while i < n
        invariant
            from <= to <= chars.len(),
            to - from == n == word@.len(),
            0 <= i <= n,
            forall|j: int| 0 <= j < i ==> chars@[from + j] == #[trigger] word@[j],
        decreases n - i,
    {
        if chars[from + i] != word.get_char(i) {
            proof {
                assert(chars@.subrange(from as int, to as int)[i as int] != word@[i as int]);
            }
            return false;
        }
        i = i + 1;
    }
    proof {
        assert(chars@.subrange(from as int, to as int) =~= word@);
    }
    true
}

} // verus!
