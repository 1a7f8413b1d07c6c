//! Character-level helpers for configuration strings.

use vstd::prelude::*;
use vstd::string::StrSliceExecFns;

verus! {

/// Whether two strings hold the same characters.
pub fn str_equals(s: &str, other: &str) -> (r: bool)
    ensures
        r == (s@ == other@),
{
    let n = s.unicode_len();
    let m = other.unicode_len();
    if n != m {
        return false;
    }
    let mut i: usize = 0;
    while i < n
        invariant
            n == s@.len(),
            m == other@.len(),
            n == m,
            i <= n,
            forall|j: int| 0 <= j < i ==> s@[j] == other@[j],
        decreases n - i,
    {
        if s.get_char(i) != other.get_char(i) {
            return false;
        }
        i = i + 1;
    }
    assert(s@ =~= other@);
    true
}

/// Unicode `White_Space`, the set `char::is_whitespace` (and so `str::trim`)
/// uses.
pub open spec fn spec_is_whitespace(c: char) -> bool {
    ||| '\u{9}' <= c <= '\u{d}'
    ||| c == ' '
    ||| c == '\u{85}'
    ||| c == '\u{a0}'
    ||| c == '\u{1680}'
    ||| '\u{2000}' <= c <= '\u{200a}'
    ||| c == '\u{2028}'
    ||| c == '\u{2029}'
    ||| c == '\u{202f}'
    ||| c == '\u{205f}'
    ||| c == '\u{3000}'
}

pub fn is_whitespace(c: char) -> (r: bool)
    ensures
        r == spec_is_whitespace(c),
{
    ('\u{9}' <= c && c <= '\u{d}') || c == ' ' || c == '\u{85}' || c == '\u{a0}' || c == '\u{1680}'
        || ('\u{2000}' <= c && c <= '\u{200a}') || c == '\u{2028}' || c == '\u{2029}' || c
        == '\u{202f}' || c == '\u{205f}' || c == '\u{3000}'
}

/// ASCII lowercasing of one character (`char::to_ascii_lowercase`).
pub open spec fn spec_ascii_lower(c: char) -> char {
    if 'A' <= c <= 'Z' {
        ((c as u32) + 32) as char
    } else {
        c
    }
}

/// Leading whitespace count.
pub open spec fn spec_leading_ws(s: Seq<char>) -> nat
    decreases s.len(),
{
    if s.len() == 0 || !spec_is_whitespace(s[0]) {
        0
    } else {
        1 + spec_leading_ws(s.subrange(1, s.len() as int))
    }
}

/// Trailing whitespace count.
pub open spec fn spec_trailing_ws(s: Seq<char>) -> nat
    decreases s.len(),
{
    if s.len() == 0 || !spec_is_whitespace(s.last()) {
        0
    } else {
        1 + spec_trailing_ws(s.drop_last())
    }
}

/// `str::trim`: whitespace removed from both ends.
pub open spec fn spec_trim(s: Seq<char>) -> Seq<char> {
    let lead = spec_leading_ws(s);
    let rest = s.subrange(lead as int, s.len() as int);
    rest.subrange(0, rest.len() - spec_trailing_ws(rest))
}

/// `to_ascii_lowercase` of a whole string.
pub open spec fn spec_lowercase(s: Seq<char>) -> Seq<char> {
    s.map_values(|c: char| spec_ascii_lower(c))
}

proof fn lemma_leading_ws_bound(s: Seq<char>)
    ensures
        spec_leading_ws(s) <= s.len(),
        forall|j: int| 0 <= j < spec_leading_ws(s) ==> spec_is_whitespace(s[j]),
        spec_leading_ws(s) < s.len() ==> !spec_is_whitespace(s[spec_leading_ws(s) as int]),
    decreases s.len(),
{
    if s.len() > 0 && spec_is_whitespace(s[0]) {
        let t = s.subrange(1, s.len() as int);
        lemma_leading_ws_bound(t);
        assert forall|j: int| 0 <= j < spec_leading_ws(s) implies spec_is_whitespace(s[j]) by {
            if j > 0 {
                assert(s[j] == t[j - 1]);
            }
        }
    }
}

proof fn lemma_trailing_ws_bound(s: Seq<char>)
    ensures
        spec_trailing_ws(s) <= s.len(),
        forall|j: int| s.len() - spec_trailing_ws(s) <= j < s.len() ==> spec_is_whitespace(s[j]),
        spec_trailing_ws(s) < s.len() ==> !spec_is_whitespace(
            s[s.len() - spec_trailing_ws(s) - 1],
        ),
    decreases s.len(),
{
    if s.len() > 0 && spec_is_whitespace(s.last()) {
        let t = s.drop_last();
        lemma_trailing_ws_bound(t);
        assert forall|j: int| s.len() - spec_trailing_ws(s) <= j < s.len() implies spec_is_whitespace(
            s[j],
        ) by {
            if j < s.len() - 1 {
                assert(s[j] == t[j]);
            }
        }
    }
}

/// Counts leading whitespace characters.
fn leading_ws(s: &str) -> (r: usize)
    ensures
        r == spec_leading_ws(s@),
{
    let n = s.unicode_len();
    let mut i: usize = 0;
    assert(s@.subrange(0, n as int) =~= s@);
    while i < n && is_whitespace(s.get_char(i))
        invariant
            n == s@.len(),
            i <= n,
            spec_leading_ws(s@) == i + spec_leading_ws(s@.subrange(i as int, n as int)),
        decreases n - i,
    {
        let ghost t = s@.subrange(i as int, n as int);
        assert(t.subrange(1, t.len() as int) =~= s@.subrange(i as int + 1, n as int));
        assert(t[0] == s@[i as int]);
        i = i + 1;
    }
    proof {
        let t = s@.subrange(i as int, n as int);
        if i < n {
            assert(t[0] == s@[i as int]);
        }
    }
    i
}

/// Counts trailing whitespace characters of `s@[from..]`.
fn trailing_ws(s: &str, from: usize) -> (r: usize)
    requires
        from <= s@.len(),
    ensures
        r == spec_trailing_ws(s@.subrange(from as int, s@.len() as int)),
{
    let n = s.unicode_len();
    let mut j: usize = n;
    while j > from && is_whitespace(s.get_char(j - 1))
        invariant
            n == s@.len(),
            from <= j <= n,
            spec_trailing_ws(s@.subrange(from as int, n as int)) == (n - j) + spec_trailing_ws(
                s@.subrange(from as int, j as int),
            ),
        decreases j - from,
    {
        let ghost t = s@.subrange(from as int, j as int);
        assert(t.drop_last() =~= s@.subrange(from as int, j - 1));
        assert(t.last() == s@[j - 1]);
        j = j - 1;
    }
    proof {
        let t = s@.subrange(from as int, j as int);
        if j > from {
            assert(t.last() == s@[j - 1]);
        }
    }
    n - j
}

/// Whether `trim(s)` lowercased is one of the enabled spellings.
pub open spec fn spec_toggle_enabled(s: Seq<char>) -> bool {
    let v = spec_lowercase(spec_trim(s));
    v == "1"@ || v == "true"@ || v == "yes"@ || v == "on"@
}

/// Compares `s@[from..to]`, ASCII-lowercased, with `lit`.
fn lower_range_equals(s: &str, from: usize, to: usize, lit: &str) -> (r: bool)
    requires
        from <= to <= s@.len(),
    ensures
        r == (spec_lowercase(s@.subrange(from as int, to as int)) == lit@),
{
    let m = lit.unicode_len();
    if to - from != m {
        return false;
    }
    let ghost t = s@.subrange(from as int, to as int);
    let mut i: usize = 0;
    while i < m
        invariant
            from <= to <= s@.len(),
            m == lit@.len(),
            to - from == m,
            t == s@.subrange(from as int, to as int),
            i <= m,
            forall|j: int| 0 <= j < i ==> spec_ascii_lower(t[j]) == lit@[j],
        decreases m - i,
    {
        let c = s.get_char(from + i);
        let lower = if 'A' <= c && c <= 'Z' {
            char_from_ascii_offset(c)
        } else {
            c
        };
        if lower != lit.get_char(i) {
            assert(spec_lowercase(t)[i as int] == spec_ascii_lower(t[i as int]));
            return false;
        }
        i = i + 1;
    }
    assert(spec_lowercase(t) =~= lit@);
    true
}

/// Lowercase letter of an uppercase ASCII letter.
fn char_from_ascii_offset(c: char) -> (r: char)
    requires
        'A' <= c <= 'Z',
    ensures
        r == spec_ascii_lower(c),
{
    let code = (c as u32) + 32;
    if code == 97 { 'a' } else if code == 98 { 'b' } else if code == 99 { 'c' } else if code == 100 { 'd' }
    else if code == 101 { 'e' } else if code == 102 { 'f' } else if code == 103 { 'g' } else if code == 104 { 'h' }
    else if code == 105 { 'i' } else if code == 106 { 'j' } else if code == 107 { 'k' } else if code == 108 { 'l' }
    else if code == 109 { 'm' } else if code == 110 { 'n' } else if code == 111 { 'o' } else if code == 112 { 'p' }
    else if code == 113 { 'q' } else if code == 114 { 'r' } else if code == 115 { 's' } else if code == 116 { 't' }
    else if code == 117 { 'u' } else if code == 118 { 'v' } else if code == 119 { 'w' } else if code == 120 { 'x' }
    else if code == 121 { 'y' } else { 'z' }
}

/// Whether a toggle value is on: after trimming whitespace and ASCII
/// lowercasing it reads `1`, `true`, `yes` or `on`.
pub fn toggle_value_enabled(value: &str) -> (r: bool)
    ensures
        r == spec_toggle_enabled(value@),
{
    let lead = leading_ws(value);
    proof {
        lemma_leading_ws_bound(value@);
    }
    let trail = trailing_ws(value, lead);
    let ghost rest = value@.subrange(lead as int, value@.len() as int);
    proof {
        lemma_trailing_ws_bound(rest);
    }
    let end = value.unicode_len() - trail;
    assert(rest.subrange(0, rest.len() - trail) =~= value@.subrange(lead as int, end as int));
    lower_range_equals(value, lead, end, "1") || lower_range_equals(value, lead, end, "true")
        || lower_range_equals(value, lead, end, "yes") || lower_range_equals(value, lead, end, "on")
}

} // verus!
