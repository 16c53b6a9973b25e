//! Scrubbing a finished script for synthesis: Markdown emphasis and
//! heading marks are dropped, Markdown links are removed whole, and
//! parenthesised source citations are cut, so that none of it is read
//! aloud.
use vstd::prelude::*;
use vstd::string::*;
use vstd::slice::slice_subrange;
use crate::fingerprint::chars_vec;
use crate::external::string_from_chars;
use crate::textproc::{is_space, lower_code, match_at_ci};

verus! {

/// An opening parenthesis of either width.
pub open spec fn is_open_paren(c: char) -> bool {
    c == '(' || c == '\u{ff08}'
}

/// A closing parenthesis of either width.
pub open spec fn is_close_paren(c: char) -> bool {
    c == ')' || c == '\u{ff09}'
}

/// A citation colon of either width.
pub open spec fn is_colon(c: char) -> bool {
    c == ':' || c == '\u{ff1a}'
}

/// The least index at which the predicate holds, or -1.
pub open spec fn find_index(s: Seq<char>, pred: spec_fn(char) -> bool) -> int
    decreases s.len(),
{
    if s.len() == 0 {
        -1
    } else if pred(s[0]) {
        0
    } else {
        let r = find_index(s.drop_first(), pred);
        if r < 0 {
            -1
        } else {
            r + 1
        }
    }
}

/// A scan that misses `upto` times and then hits (or runs out) computes
/// `find_index`.
proof fn lemma_find_index_scan(s: Seq<char>, pred: spec_fn(char) -> bool, upto: int)
    requires
        0 <= upto <= s.len(),
        forall|k: int| 0 <= k < upto ==> !pred(s[k]),
        upto == s.len() || pred(s[upto]),
    ensures
        upto == s.len() ==> find_index(s, pred) == -1,
        upto < s.len() ==> find_index(s, pred) == upto,
    decreases upto,
{
    if s.len() > 0 && !pred(s[0]) {
        let d = s.drop_first();
        assert(forall|k: int| 0 <= k < upto - 1 ==> !pred(#[trigger] d[k]));
        lemma_find_index_scan(d, pred, upto - 1);
    }
}

/// The length of the Markdown link starting at the head of the text
/// (`[..](..)`), or -1 when the head is no link.
pub open spec fn link_len(s: Seq<char>) -> int {
    if s.len() == 0 || s[0] != '[' {
        -1
    } else {
        let j1 = find_index(s.skip(1), |c: char| c == ']');
        if j1 < 0 {
            -1
        } else {
            let p = 1 + j1 + 1;
            if p < s.len() && s[p] == '(' {
                let j2 = find_index(s.skip(p + 1), |c: char| c == ')');
                if j2 < 0 {
                    -1
                } else {
                    p + 1 + j2 + 1
                }
            } else {
                -1
            }
        }
    }
}

/// The English citation keyword.
pub open spec fn source_word() -> Seq<char> {
    seq!['s', 'o', 'u', 'r', 'c', 'e']
}

/// The Chinese citation keyword.
pub open spec fn source_word_cn() -> Seq<char> {
    seq!['\u{6765}', '\u{6e90}']
}

/// The first non-space position at or after `from`.
pub open spec fn skip_spaces(s: Seq<char>, from: int) -> int
    decreases s.len() - from,
{
    if from < 0 || from >= s.len() {
        s.len() as int
    } else if is_space(s[from]) {
        skip_spaces(s, from + 1)
    } else {
        from
    }
}

/// The length of the parenthesised source citation starting at the head of
/// the text, or -1 when the head is no citation.
pub open spec fn citation_len(s: Seq<char>) -> int {
    if s.len() == 0 || !is_open_paren(s[0]) {
        -1
    } else {
        let k = skip_spaces(s, 1);
        let colon = if match_at_ci(s, source_word(), k) {
            k + 6
        } else if match_at_ci(s, source_word_cn(), k) {
            k + 2
        } else {
            -1
        };
        if colon < 0 || colon >= s.len() || !is_colon(s[colon]) {
            -1
        } else {
            let j = find_index(s.skip(colon + 1), |c: char| is_close_paren(c));
            if j < 0 {
                -1
            } else {
                colon + 1 + j + 1
            }
        }
    }
}

/// The script as it is read aloud: emphasis and heading marks dropped,
/// Markdown links removed whole, and source citations cut.
pub open spec fn clean_tts_spec(s: Seq<char>) -> Seq<char>
    decreases s.len(),
{
    if s.len() == 0 {
        Seq::empty()
    } else if s[0] == '*' || s[0] == '#' {
        clean_tts_spec(s.drop_first())
    } else if s[0] == '[' && 0 < link_len(s) <= s.len() {
        clean_tts_spec(s.skip(link_len(s)))
    } else if is_open_paren(s[0]) && 0 < citation_len(s) <= s.len() {
        clean_tts_spec(s.skip(citation_len(s)))
    } else {
        seq![s[0]] + clean_tts_spec(s.drop_first())
    }
}

/// Find the first character of the sought class: a close parenthesis of
/// either width, a narrow close parenthesis, or a close bracket.
fn scan_for(chars: &[char], kind: u8) -> (r: Option<usize>)
    requires
        kind == 0 || kind == 1 || kind == 2,
    ensures
        ({
            let pred: spec_fn(char) -> bool = if kind == 0 {
                |c: char| is_close_paren(c)
            } else if kind == 1 {
                |c: char| c == ')'
            } else {
                |c: char| c == ']'
            };
            match r {
                Some(i) => find_index(chars@, pred) == i as int && i < chars@.len(),
                None => find_index(chars@, pred) == -1,
            }
        }),
{
    let ghost pred: spec_fn(char) -> bool = if kind == 0 {
        |c: char| is_close_paren(c)
    } else if kind == 1 {
        |c: char| c == ')'
    } else {
        |c: char| c == ']'
    };
    let mut i: usize = 0;
    while i < chars.len()
        invariant
            kind == 0 || kind == 1 || kind == 2,
            pred == (if kind == 0 {
                |c: char| is_close_paren(c)
            } else if kind == 1 {
                |c: char| c == ')'
            } else {
                |c: char| c == ']'
            }),
            i <= chars@.len(),
            forall|k: int| 0 <= k < i ==> !pred(chars@[k]),
        decreases chars@.len() - i,
    {
        let c = chars[i];
        let hit = if kind == 0 {
            c == ')' || c == '\u{ff09}'
        } else if kind == 1 {
            c == ')'
        } else {
            c == ']'
        };
        proof {
            if kind == 0 {
                assert(pred(chars@[i as int]) == is_close_paren(c));
            } else if kind == 1 {
                assert(pred(chars@[i as int]) == (c == ')'));
            } else {
                assert(pred(chars@[i as int]) == (c == ']'));
            }
        }
        if hit {
            proof {
                lemma_find_index_scan(chars@, pred, i as int);
            }
            return Some(i);
        }
        i = i + 1;
    }
    proof {
        lemma_find_index_scan(chars@, pred, chars@.len() as int);
    }
    None
}

/// Compute the link length at the head, mirroring `link_len`.
fn link_len_at(chars: &[char]) -> (r: Option<usize>)
    ensures
        match r {
            Some(l) => link_len(chars@) == l as int && 0 < l <= chars@.len(),
            None => !(chars@.len() > 0 && chars@[0] == '[' && 0 < link_len(chars@)
                <= chars@.len()),
        },
{
    let n = chars.len();
    if n == 0 || chars[0] != '[' {
        return None;
    }
    let after = slice_subrange(chars, 1, n);
    proof {
        assert(after@ =~= chars@.skip(1));
    }
    let j1 = match scan_for(after, 2) {
        Some(j) => j,
        None => {
            return None;
        },
    };
    proof {
        assert(j1 < after@.len());
        assert(after@.len() == n - 1);
    }
    let p = 1 + j1 + 1;
    if p >= n || chars[p] != '(' {
        return None;
    }
    let after2 = slice_subrange(chars, p + 1, n);
    proof {
        assert(after2@ =~= chars@.skip(p as int + 1));
    }
    let j2 = match scan_for(after2, 1) {
        Some(j) => j,
        None => {
            return None;
        },
    };
    proof {
        assert(j2 < after2@.len());
        assert(after2@.len() == n - p - 1);
    }
    Some(p + 1 + j2 + 1)
}

/// Compute the citation length at the head, mirroring `citation_len`.
fn citation_len_at(chars: &[char]) -> (r: Option<usize>)
    ensures
        match r {
            Some(l) => citation_len(chars@) == l as int && 0 < l <= chars@.len(),
            None => !(chars@.len() > 0 && is_open_paren(chars@[0]) && 0 < citation_len(chars@)
                <= chars@.len()),
        },
{
    let n = chars.len();
    if n == 0 || !(chars[0] == '(' || chars[0] == '\u{ff08}') {
        return None;
    }
    let mut k: usize = 1;
    while k < n && crate::textproc::is_space_char(chars[k])
        invariant
            1 <= k <= n,
            n == chars@.len(),
            forall|m: int| 1 <= m < k ==> is_space(chars@[m]),
        decreases n - k,
    {
        k = k + 1;
    }
    proof {
        lemma_skip_spaces_scan(chars@, 1, k as int);
    }
    // The keyword, case-insensitively.
    let mut en: Vec<char> = Vec::new();
    en.push('s');
    en.push('o');
    en.push('u');
    en.push('r');
    en.push('c');
    en.push('e');
    let mut cn: Vec<char> = Vec::new();
    cn.push('\u{6765}');
    cn.push('\u{6e90}');
    proof {
        assert(en@ =~= source_word());
        assert(cn@ =~= source_word_cn());
    }
    let colon: usize = if marker_at_ci(chars, k, en.as_slice()) {
        k + 6
    } else if marker_at_ci(chars, k, cn.as_slice()) {
        k + 2
    } else {
        return None;
    };
    if colon >= n || !(chars[colon] == ':' || chars[colon] == '\u{ff1a}') {
        return None;
    }
    let after = slice_subrange(chars, colon + 1, n);
    proof {
        assert(after@ =~= chars@.skip(colon as int + 1));
    }
    let j = match scan_for(after, 0) {
        Some(j) => j,
        None => {
            return None;
        },
    };
    proof {
        assert(j < after@.len());
        assert(after@.len() == n - colon - 1);
    }
    Some(colon + 1 + j + 1)
}

/// A whitespace scan from `from` to the first non-space computes
/// `skip_spaces`.
proof fn lemma_skip_spaces_scan(s: Seq<char>, from: int, upto: int)
    requires
        0 <= from <= upto <= s.len(),
        forall|m: int| from <= m < upto ==> is_space(s[m]),
        upto == s.len() || !is_space(s[upto]),
    ensures
        skip_spaces(s, from) == if upto == s.len() {
            s.len() as int
        } else {
            upto
        },
    decreases upto - from,
{
    if from < upto {
        lemma_skip_spaces_scan(s, from + 1, upto);
    }
}

/// Whether the marker occurs at the given position, up to ASCII case.
fn marker_at_ci(chars: &[char], pos: usize, marker: &[char]) -> (r: bool)
    requires
        pos <= chars@.len(),
    ensures
        r == match_at_ci(chars@, marker@, pos as int),
{
    let m = marker.len();
    let n = chars.len();
    if m > n - pos {
        return false;
    }
    let mut j: usize = 0;
    while j < m
        invariant
            n == chars@.len(),
            pos + m <= n,
            m == marker@.len(),
            j <= m,
            forall|t: int| 0 <= t < j ==> lower_code(chars@[pos + t]) == lower_code(marker@[t]),
        decreases m - j,
    {
        proof {
            assert(pos + j < chars@.len());
        }
        if crate::textproc::lower_code_of(chars[pos + j]) != crate::textproc::lower_code_of(
            marker[j],
        ) {
            proof {
                assert(chars@.subrange(pos as int, pos + m as int)[j as int] == chars@[pos + j]);
            }
            return false;
        }
        j = j + 1;
    }
    proof {
        assert forall|t: int| 0 <= t < m implies lower_code(
            #[trigger] chars@.subrange(pos as int, pos + m as int)[t],
        ) == lower_code(marker@[t]) by {
            assert(chars@.subrange(pos as int, pos + m as int)[t] == chars@[pos + t]);
        }
    }
    true
}

/// Scrub a script for synthesis.
pub fn clean_for_tts(text: &str) -> (r: String)
    ensures
        r@ == clean_tts_spec(text@),
{
    let chars = chars_vec(text);
    let cleaned = clean_tts_chars(chars.as_slice());
    string_from_chars(cleaned.as_slice())
}

/// The recursive worker behind `clean_for_tts`.
fn clean_tts_chars(chars: &[char]) -> (r: Vec<char>)
    ensures
        r@ == clean_tts_spec(chars@),
    decreases chars@.len(),
{
    let n = chars.len();
    if n == 0 {
        proof {
            assert(clean_tts_spec(chars@) =~= Seq::<char>::empty());
        }
        return Vec::new();
    }
    let c = chars[0];
    if c == '*' || c == '#' {
        let rest = slice_subrange(chars, 1, n);
        proof {
            assert(rest@ =~= chars@.drop_first());
        }
        return clean_tts_chars(rest);
    }
    if c == '[' {
        match link_len_at(chars) {
            Some(l) => {
                let rest = slice_subrange(chars, l, n);
                proof {
                    assert(rest@ =~= chars@.skip(l as int));
                }
                return clean_tts_chars(rest);
            },
            None => {},
        }
    }
    if c == '(' || c == '\u{ff08}' {
        match citation_len_at(chars) {
            Some(l) => {
                let rest = slice_subrange(chars, l, n);
                proof {
                    assert(rest@ =~= chars@.skip(l as int));
                }
                return clean_tts_chars(rest);
            },
            None => {},
        }
    }
    let rest = slice_subrange(chars, 1, n);
    proof {
        assert(rest@ =~= chars@.drop_first());
    }
    let mut out: Vec<char> = Vec::new();
    out.push(c);
    let mut tail = clean_tts_chars(rest);
    out.append(&mut tail);
    proof {
        assert(out@ =~= seq![chars@[0]] + clean_tts_spec(chars@.drop_first()));
    }
    out
}

} // verus!
