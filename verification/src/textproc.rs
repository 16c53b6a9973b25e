//! Verified text primitives the pipeline decisions are built on: trimming,
//! case-insensitive title comparison, marker search, sentence extraction,
//! and the small classifications of the production state machine.
use vstd::prelude::*;
use vstd::string::*;
use crate::fingerprint::chars_vec;

verus! {

/// The characters Rust's `str::trim` removes: the Unicode white-space set.
pub open spec fn is_space(c: char) -> bool {
    ||| c == ' '
    ||| c == '\t'
    ||| c == '\n'
    ||| c == '\r'
    ||| c == '\u{0b}'
    ||| c == '\u{0c}'
    ||| c == '\u{85}'
    ||| c == '\u{a0}'
    ||| c == '\u{1680}'
    ||| ('\u{2000}' <= c && c <= '\u{200a}')
    ||| c == '\u{2028}'
    ||| c == '\u{2029}'
    ||| c == '\u{202f}'
    ||| c == '\u{205f}'
    ||| c == '\u{3000}'
}

/// Whether a character is white space.
pub fn is_space_char(c: char) -> (r: bool)
    ensures
        r == is_space(c),
{
    c == ' ' || c == '\t' || c == '\n' || c == '\r' || c == '\u{0b}' || c == '\u{0c}'
        || c == '\u{85}' || c == '\u{a0}' || c == '\u{1680}' || ('\u{2000}' <= c && c
        <= '\u{200a}') || c == '\u{2028}' || c == '\u{2029}' || c == '\u{202f}' || c == '\u{205f}'
        || c == '\u{3000}'
}

/// A sentence terminator of the broadcast script language.
pub open spec fn is_terminator(c: char) -> bool {
    c == '\u{3002}' || c == '\u{ff01}' || c == '\u{ff1f}'
}

/// Whether a character ends a sentence.
pub fn is_terminator_char(c: char) -> (r: bool)
    ensures
        r == is_terminator(c),
{
    c == '\u{3002}' || c == '\u{ff01}' || c == '\u{ff1f}'
}

/// A sequence with leading white space removed.
pub open spec fn trim_start_of(s: Seq<char>) -> Seq<char>
    decreases s.len(),
{
    if s.len() > 0 && is_space(s[0]) {
        trim_start_of(s.drop_first())
    } else {
        s
    }
}

/// A sequence with trailing white space removed.
pub open spec fn trim_end_of(s: Seq<char>) -> Seq<char>
    decreases s.len(),
{
    if s.len() > 0 && is_space(s.last()) {
        trim_end_of(s.drop_last())
    } else {
        s
    }
}

/// A sequence with surrounding white space removed.
pub open spec fn trim_of(s: Seq<char>) -> Seq<char> {
    trim_end_of(trim_start_of(s))
}

/// Leading spaces up to a non-space position locate the trimmed prefix.
proof fn lemma_trim_start_at(s: Seq<char>, k: int)
    requires
        0 <= k <= s.len(),
        forall|i: int| 0 <= i < k ==> is_space(s[i]),
        k == s.len() || !is_space(s[k]),
    ensures
        trim_start_of(s) == s.subrange(k, s.len() as int),
    decreases k,
{
    if k == 0 {
        if s.len() > 0 && is_space(s[0]) {
            assert(false);
        }
        assert(s.subrange(0, s.len() as int) =~= s);
    } else {
        assert(is_space(s[0]));
        let d = s.drop_first();
        assert(forall|i: int| 0 <= i < k - 1 ==> is_space(#[trigger] d[i]));
        lemma_trim_start_at(d, k - 1);
        assert(d.subrange(k - 1, d.len() as int) =~= s.subrange(k, s.len() as int));
    }
}

/// Trailing spaces down to a non-space position locate the trimmed suffix.
proof fn lemma_trim_end_at(s: Seq<char>, e: int)
    requires
        0 <= e <= s.len(),
        forall|i: int| e <= i < s.len() ==> is_space(s[i]),
        e == 0 || !is_space(s[e - 1]),
    ensures
        trim_end_of(s) == s.take(e),
    decreases s.len() - e,
{
    if e == s.len() {
        if s.len() > 0 && is_space(s.last()) {
            assert(false);
        }
        assert(s.take(e) =~= s);
    } else {
        assert(is_space(s.last()));
        let d = s.drop_last();
        lemma_trim_end_at(d, e);
        assert(d.take(e) =~= s.take(e));
    }
}

/// The trimmed span of a character slice: start and end indices such that
/// the subrange between them is the trimmed text.
pub fn trim_bounds(chars: &[char]) -> (b: (usize, usize))
    ensures
        b.0 <= b.1 <= chars@.len(),
        chars@.subrange(b.0 as int, b.1 as int) == trim_of(chars@),
{
    let n = chars.len();
    let mut start: usize = 0;
    while start < n && is_space_char(chars[start])
        invariant
            start <= n,
            n == chars@.len(),
            forall|i: int| 0 <= i < start ==> is_space(chars@[i]),
        decreases n - start,
    {
        start = start + 1;
    }
    let mut end: usize = n;
    while end > start && is_space_char(chars[end - 1])
        invariant
            start <= end <= n,
            n == chars@.len(),
            forall|i: int| end <= i < n ==> is_space(chars@[i]),
        decreases end,
    {
        end = end - 1;
    }
    proof {
        lemma_trim_start_at(chars@, start as int);
        let t = chars@.subrange(start as int, n as int);
        if end == start {
            assert(forall|i: int| (end - start) <= i < t.len() ==> is_space(#[trigger] t[i]));
            lemma_trim_end_at(t, 0);
        } else {
            assert(!is_space(t[end - start - 1]));
            assert(forall|i: int| (end - start) <= i < t.len() ==> is_space(#[trigger] t[i]));
            lemma_trim_end_at(t, end - start as int);
        }
        assert(t.take(end - start as int) =~= chars@.subrange(start as int, end as int));
    }
    (start, end)
}

/// The trimmed text of a string, as characters.
pub fn trim_chars(s: &str) -> (r: Vec<char>)
    ensures
        r@ == trim_of(s@),
{
    let chars = chars_vec(s);
    let (a, b) = trim_bounds(chars.as_slice());
    let mut r: Vec<char> = Vec::new();
    let mut i: usize = a;
    while i < b
        invariant
            a <= i <= b <= chars@.len(),
            r@ =~= chars@.subrange(a as int, i as int),
        decreases b - i,
    {
        r.push(chars[i]);
        i = i + 1;
    }
    proof {
        assert(r@ =~= chars@.subrange(a as int, b as int));
    }
    r
}

/// A character's code point with an ASCII upper-case letter folded to lower
/// case.
pub open spec fn lower_code(c: char) -> u32 {
    if 'A' <= c && c <= 'Z' {
        ((c as u32) + 32) as u32
    } else {
        c as u32
    }
}

/// Equality of two character sequences up to ASCII case.
pub open spec fn ci_eq(a: Seq<char>, b: Seq<char>) -> bool {
    a.len() == b.len() && forall|i: int| 0 <= i < a.len() ==> lower_code(a[i]) == lower_code(b[i])
}

/// Fold one character to ASCII lower case, as a code point.
pub fn lower_code_of(c: char) -> (r: u32)
    ensures
        r == lower_code(c),
{
    if 'A' <= c && c <= 'Z' {
        (c as u32) + 32
    } else {
        c as u32
    }
}

/// Titles are the same topic label when they are equal up to surrounding
/// white space and ASCII case.
pub open spec fn title_match(a: Seq<char>, b: Seq<char>) -> bool {
    ci_eq(trim_of(a), trim_of(b))
}

/// Compare two titles up to surrounding white space and ASCII case.
pub fn titles_match(a: &str, b: &str) -> (r: bool)
    ensures
        r == title_match(a@, b@),
{
    let ta = trim_chars(a);
    let tb = trim_chars(b);
    if ta.len() != tb.len() {
        return false;
    }
    let mut i: usize = 0;
    while i < ta.len()
        invariant
            ta@.len() == tb@.len(),
            i <= ta@.len(),
            ta@ == trim_of(a@),
            tb@ == trim_of(b@),
            forall|k: int| 0 <= k < i ==> lower_code(ta@[k]) == lower_code(tb@[k]),
        decreases ta@.len() - i,
    {
        if lower_code_of(ta[i]) != lower_code_of(tb[i]) {
            return false;
        }
        i = i + 1;
    }
    true
}

/// Whether two texts are equal after trimming.
pub fn trimmed_eq(a: &str, b: &str) -> (r: bool)
    ensures
        r == (trim_of(a@) == trim_of(b@)),
{
    let ta = trim_chars(a);
    let tb = trim_chars(b);
    if ta.len() != tb.len() {
        proof {
            assert(trim_of(a@).len() != trim_of(b@).len());
        }
        return false;
    }
    let mut i: usize = 0;
    while i < ta.len()
        invariant
            ta@.len() == tb@.len(),
            i <= ta@.len(),
            ta@ == trim_of(a@),
            tb@ == trim_of(b@),
            forall|k: int| 0 <= k < i ==> ta@[k] == tb@[k],
        decreases ta@.len() - i,
    {
        if ta[i] != tb[i] {
            return false;
        }
        i = i + 1;
    }
    proof {
        assert(ta@ =~= tb@);
    }
    true
}

/// The marker occurs in the text starting at position `i`.
pub open spec fn match_at(s: Seq<char>, m: Seq<char>, i: int) -> bool {
    0 <= i && i + m.len() <= s.len() && s.subrange(i, i + m.len()) == m
}

/// The marker occurs in the text starting at position `i`, up to ASCII
/// case.
pub open spec fn match_at_ci(s: Seq<char>, m: Seq<char>, i: int) -> bool {
    0 <= i && i + m.len() <= s.len() && ci_eq(s.subrange(i, i + m.len()), m)
}

/// Find the first occurrence of a marker.
pub fn find_first(chars: &[char], marker: &[char]) -> (r: Option<usize>)
    requires
        marker@.len() >= 1,
    ensures
        match r {
            Some(i) => match_at(chars@, marker@, i as int) && forall|k: int|
                0 <= k < i ==> !match_at(chars@, marker@, k),
            None => forall|k: int| !match_at(chars@, marker@, k),
        },
{
    let n = chars.len();
    let m = marker.len();
    if m > n {
        return None;
    }
    let mut i: usize = 0;
    while i <= n - m
        invariant
            n == chars@.len(),
            m == marker@.len(),
            1 <= m <= n,
            i <= n - m + 1,
            forall|k: int| 0 <= k < i ==> !match_at(chars@, marker@, k),
        decreases n - i,
    {
        let mut j: usize = 0;
        let mut all = true;
        while j < m && all
            invariant
                n == chars@.len(),
                m == marker@.len(),
                i + m <= n,
                j <= m,
                all ==> forall|t: int| 0 <= t < j ==> chars@[i + t] == marker@[t],
                !all ==> !match_at(chars@, marker@, i as int),
            decreases m - j + if all {
                1int
            } else {
                0int
            },
        {
            if chars[i + j] != marker[j] {
                proof {
                    assert(chars@.subrange(i as int, i + m as int)[j as int] != marker@[j as int]);
                }
                all = false;
            } else {
                j = j + 1;
            }
        }
        if all {
            proof {
                assert(chars@.subrange(i as int, i + m as int) =~= marker@);
            }
            return Some(i);
        }
        i = i + 1;
    }
    proof {
        assert forall|k: int| !match_at(chars@, marker@, k) by {
            if 0 <= k && k + m <= n {
                assert(k < i);
            }
        }
    }
    None
}

/// Find the first occurrence of a marker up to ASCII case.
pub fn find_first_ci(chars: &[char], marker: &[char]) -> (r: Option<usize>)
    requires
        marker@.len() >= 1,
    ensures
        match r {
            Some(i) => match_at_ci(chars@, marker@, i as int) && forall|k: int|
                0 <= k < i ==> !match_at_ci(chars@, marker@, k),
            None => forall|k: int| !match_at_ci(chars@, marker@, k),
        },
{
    let n = chars.len();
    let m = marker.len();
    if m > n {
        return None;
    }
    let mut i: usize = 0;
    while i <= n - m
        invariant
            n == chars@.len(),
            m == marker@.len(),
            1 <= m <= n,
            i <= n - m + 1,
            forall|k: int| 0 <= k < i ==> !match_at_ci(chars@, marker@, k),
        decreases n - i,
    {
        let mut j: usize = 0;
        let mut all = true;
        while j < m && all
            invariant
                n == chars@.len(),
                m == marker@.len(),
                i + m <= n,
                j <= m,
                all ==> forall|t: int| 0 <= t < j ==> lower_code(chars@[i + t]) == lower_code(
                    marker@[t],
                ),
                !all ==> !match_at_ci(chars@, marker@, i as int),
            decreases m - j + if all {
                1int
            } else {
                0int
            },
        {
            if lower_code_of(chars[i + j]) != lower_code_of(marker[j]) {
                proof {
                    assert(chars@.subrange(i as int, i + m as int)[j as int] == chars@[i + j]);
                }
                all = false;
            } else {
                j = j + 1;
            }
        }
        if all {
            proof {
                assert forall|t: int| 0 <= t < m implies lower_code(
                    #[trigger] chars@.subrange(i as int, i + m as int)[t],
                ) == lower_code(marker@[t]) by {
                    assert(chars@.subrange(i as int, i + m as int)[t] == chars@[i + t]);
                }
            }
            return Some(i);
        }
        i = i + 1;
    }
    proof {
        assert forall|k: int| !match_at_ci(chars@, marker@, k) by {
            if 0 <= k && k + m <= n {
                assert(k < i);
            }
        }
    }
    None
}

/// Whether the text starts with the given prefix.
pub fn has_prefix(s: &str, prefix: &str) -> (r: bool)
    ensures
        r == match_at(s@, prefix@, 0),
{
    let chars = chars_vec(s);
    let pre = chars_vec(prefix);
    let m = pre.len();
    let n = chars.len();
    if m > n {
        return false;
    }
    let mut j: usize = 0;
    while j < m
        invariant
            n == chars@.len(),
            m == pre@.len(),
            m <= n,
            chars@ == s@,
            pre@ == prefix@,
            j <= m,
            forall|t: int| 0 <= t < j ==> chars@[t] == pre@[t],
        decreases m - j,
    {
        if chars[j] != pre[j] {
            proof {
                assert(chars@.subrange(0, m as int)[j as int] != pre@[j as int]);
            }
            return false;
        }
        j = j + 1;
    }
    proof {
        assert(chars@.subrange(0, m as int) =~= pre@);
    }
    true
}

/// Whether the text contains an affirmative `YES`, in any ASCII case.
pub open spec fn has_yes(s: Seq<char>) -> bool {
    exists|i: int| match_at_ci(s, seq!['y', 'e', 's'], i)
}

/// Whether a verifier response affirms that two items report the same
/// topic.
pub fn contains_yes(response: &str) -> (r: bool)
    ensures
        r == has_yes(response@),
{
    let chars = chars_vec(response);
    let mut marker: Vec<char> = Vec::new();
    marker.push('y');
    marker.push('e');
    marker.push('s');
    proof {
        assert(marker@ =~= seq!['y', 'e', 's']);
    }
    match find_first_ci(chars.as_slice(), marker.as_slice()) {
        Some(_) => true,
        None => false,
    }
}

/// The number of bytes the UTF-8 encoding of one character takes.
pub open spec fn char_utf8_len(c: char) -> int {
    if (c as u32) < 0x80 {
        1
    } else if (c as u32) < 0x800 {
        2
    } else if (c as u32) < 0x10000 {
        3
    } else {
        4
    }
}

/// The number of bytes the UTF-8 encoding of a text takes.
pub open spec fn utf8_len(s: Seq<char>) -> int
    decreases s.len(),
{
    if s.len() == 0 {
        0
    } else {
        utf8_len(s.drop_last()) + char_utf8_len(s.last())
    }
}

/// The UTF-8 length never falls below zero nor exceeds four bytes per
/// character.
proof fn lemma_utf8_len_bounds(s: Seq<char>)
    ensures
        0 <= utf8_len(s) <= 4 * s.len(),
    decreases s.len(),
{
    if s.len() > 0 {
        lemma_utf8_len_bounds(s.drop_last());
    }
}

/// Measure the UTF-8 byte length of a character sequence, saturating at
/// `usize::MAX` (unreachable for real strings).
pub fn utf8_len_of(chars: &[char]) -> (n: usize)
    ensures
        utf8_len(chars@) <= usize::MAX ==> n == utf8_len(chars@),
        utf8_len(chars@) > usize::MAX ==> n == usize::MAX,
{
    let mut n: usize = 0;
    let mut i: usize = 0;
    while i < chars.len()
        invariant
            i <= chars@.len(),
            utf8_len(chars@.take(i as int)) <= usize::MAX ==> n == utf8_len(
                chars@.take(i as int),
            ),
            n <= usize::MAX,
            utf8_len(chars@.take(i as int)) > usize::MAX ==> n == usize::MAX,
        decreases chars@.len() - i,
    {
        let c = chars[i];
        let w: usize = if (c as u32) < 0x80 {
            1
        } else if (c as u32) < 0x800 {
            2
        } else if (c as u32) < 0x10000 {
            3
        } else {
            4
        };
        proof {
            assert(chars@.take(i + 1).drop_last() =~= chars@.take(i as int));
            lemma_utf8_len_bounds(chars@.take(i as int));
        }
        if n <= usize::MAX - w {
            n = n + w;
        } else {
            n = usize::MAX;
        }
        i = i + 1;
    }
    proof {
        assert(chars@.take(chars@.len() as int) =~= chars@);
    }
    n
}

/// An episode script is abandoned when it carries an explicit skip marker
/// or its trimmed form is shorter than ten bytes.
pub open spec fn is_skip_script(s: Seq<char>) -> bool {
    (exists|i: int| match_at(s, seq!['S', 'K', 'I', 'P'], i)) || utf8_len(trim_of(s)) < 10
}

/// Whether a produced script must be skipped rather than published.
pub fn is_skip(script: &str) -> (r: bool)
    ensures
        r == is_skip_script(script@),
{
    let trimmed = trim_chars(script);
    let mut marker: Vec<char> = Vec::new();
    marker.push('S');
    marker.push('K');
    marker.push('I');
    marker.push('P');
    proof {
        assert(marker@ =~= seq!['S', 'K', 'I', 'P']);
    }
    let chars = chars_vec(script);
    let found = match find_first(chars.as_slice(), marker.as_slice()) {
        Some(_) => true,
        None => false,
    };
    if found {
        return true;
    }
    let blen = utf8_len_of(trimmed.as_slice());
    blen < 10
}

/// Keep at most the first `n` characters.
pub open spec fn take_at_most(s: Seq<char>, n: int) -> Seq<char> {
    if s.len() <= n {
        s
    } else {
        s.take(n)
    }
}

} // verus!
