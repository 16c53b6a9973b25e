//! Defensive parsing of the generation collaborator's structured replies.
//!
//! The collaborator answers in loosely JSON-shaped text.  The braced span
//! is located by verified scanning; decoding the span is entrusted to
//! serde_json behind small wrappers, and every consumer is verified for
//! every value those wrappers may hand back.
use vstd::prelude::*;
use vstd::string::*;
use crate::fingerprint::chars_vec;
use crate::external::string_from_chars;

verus! {

/// Declares serde_json's value type so it can cross our signatures; its
/// contents stay opaque.
#[verifier::external_type_specification]
#[verifier::external_body]
pub struct ExValue(serde_json::Value);

/// Relies on `serde_json::from_str::<serde_json::Value>`: decodes a JSON
/// document.  Which texts decode, and to what, is not modelled; callers
/// handle every outcome.
#[verifier::external_body]
pub(crate) fn json_parse(s: &str) -> Option<serde_json::Value> {
    serde_json::from_str(s).ok()
}

/// Relies on `serde_json::Value::get`: the value under a key of a JSON
/// object, if any.
#[verifier::external_body]
pub(crate) fn json_get<'a>(v: &'a serde_json::Value, key: &str) -> Option<&'a serde_json::Value> {
    v.get(key)
}

/// Relies on `serde_json::Value::as_str`: the text of a JSON string value,
/// if it is one.
#[verifier::external_body]
pub(crate) fn json_as_string(v: &serde_json::Value) -> Option<String> {
    match v.as_str() {
        Some(s) => Some(s.to_string()),
        None => None,
    }
}

/// Relies on `serde_json::Value::as_bool`: the value of a JSON boolean, if
/// it is one.
#[verifier::external_body]
pub(crate) fn json_as_bool(v: &serde_json::Value) -> Option<bool> {
    v.as_bool()
}

/// Relies on `serde_json::from_str::<Vec<Vec<usize>>>`: decodes a JSON
/// two-dimensional array of indices.  Which texts decode, and to what, is
/// not modelled; the caller validates the result.
#[verifier::external_body]
pub(crate) fn json_parse_groups(s: &str) -> Option<Vec<Vec<usize>>> {
    serde_json::from_str(s).ok()
}

/// The span from the first `open` to the last `close` of a reply, when
/// both exist in that order: the place a JSON document is looked for.
pub open spec fn delimited_span(s: Seq<char>, open: char, close: char) -> Option<Seq<char>> {
    if exists|i: int| 0 <= i < s.len() && s[i] == open {
        let first = choose|i: int|
            0 <= i < s.len() && s[i] == open && forall|k: int| 0 <= k < i ==> s[k] != open;
        if exists|j: int| first <= j < s.len() && s[j] == close && forall|k: int|
            j < k < s.len() ==> s[k] != close {
            let last = choose|j: int|
                first <= j < s.len() && s[j] == close && forall|k: int|
                    j < k < s.len() ==> s[k] != close;
            Some(s.subrange(first, last + 1))
        } else {
            None
        }
    } else {
        None
    }
}

/// The span a JSON object is looked for in.
pub open spec fn braced_span(s: Seq<char>) -> Option<Seq<char>> {
    delimited_span(s, '{', '}')
}

/// The span a JSON array is looked for in.
pub open spec fn bracketed_span(s: Seq<char>) -> Option<Seq<char>> {
    delimited_span(s, '[', ']')
}

/// Cut the span between the first `open` and the last `close` out of a
/// reply.
pub fn extract_span(s: &str, open: char, close: char) -> (r: Option<String>)
    ensures
        match r {
            Some(sub) => delimited_span(s@, open, close) == Some(sub@),
            None => delimited_span(s@, open, close) is None,
        },
{
    let chars = chars_vec(s);
    let n = chars.len();
    let mut first: usize = 0;
    let mut has_first = false;
    while first < n && !has_first
        invariant
            n == chars@.len(),
            first <= n,
            !has_first ==> forall|k: int| 0 <= k < first ==> chars@[k] != open,
            has_first ==> first < n && chars@[first as int] == open && forall|k: int|
                0 <= k < first ==> chars@[k] != open,
        decreases n - first + if has_first {
            0int
        } else {
            1int
        },
    {
        if chars[first] == open {
            has_first = true;
        } else {
            first = first + 1;
        }
    }
    if !has_first {
        proof {
            assert(forall|i: int| 0 <= i < chars@.len() ==> chars@[i] != open);
        }
        return None;
    }
    let mut last: usize = n;
    let mut has_last = false;
    while last > first && !has_last
        invariant
            n == chars@.len(),
            first <= last <= n,
            first < n,
            !has_last ==> forall|k: int| last <= k < n ==> chars@[k] != close,
            has_last ==> first <= last < n && chars@[last as int] == close && forall|k: int|
                last < k < n ==> chars@[k] != close,
        decreases last + if has_last {
            0int
        } else {
            1int
        },
    {
        if chars[last - 1] == close {
            last = last - 1;
            has_last = true;
        } else {
            last = last - 1;
        }
    }
    if !has_last {
        proof {
            let ghost fi = choose|i: int|
                0 <= i < chars@.len() && chars@[i] == open && forall|k: int|
                    0 <= k < i ==> chars@[k] != open;
            assert(fi == first as int);
            assert(forall|j: int| first <= j < n ==> chars@[j] != close);
        }
        return None;
    }
    let mut sub: Vec<char> = Vec::new();
    let mut i: usize = first;
    while i <= last
        invariant
            first <= i <= last + 1,
            last < n,
            n == chars@.len(),
            sub@ =~= chars@.subrange(first as int, i as int),
        decreases last - i + 1,
    {
        sub.push(chars[i]);
        i = i + 1;
    }
    proof {
        let ghost fi = choose|i: int|
            0 <= i < chars@.len() && chars@[i] == open && forall|k: int|
                0 <= k < i ==> chars@[k] != open;
        assert(fi == first as int);
        let ghost lj = choose|j: int|
            fi <= j < chars@.len() && chars@[j] == close && forall|k: int|
                j < k < chars@.len() ==> chars@[k] != close;
        assert(lj == last as int);
        assert(sub@ =~= chars@.subrange(first as int, last + 1));
    }
    Some(string_from_chars(sub.as_slice()))
}

/// Cut the braced span out of a reply.
pub fn extract_braced(s: &str) -> (r: Option<String>)
    ensures
        match r {
            Some(sub) => braced_span(s@) == Some(sub@),
            None => braced_span(s@) is None,
        },
{
    extract_span(s, '{', '}')
}

/// Cut the bracketed span out of a reply.
pub fn extract_bracketed(s: &str) -> (r: Option<String>)
    ensures
        match r {
            Some(sub) => bracketed_span(s@) == Some(sub@),
            None => bracketed_span(s@) is None,
        },
{
    extract_span(s, '[', ']')
}

/// An editor's verdict over a draft: whether it passes, and the critique.
pub struct ReviewVerdict {
    pub pass: bool,
    pub critique: String,
}

/// Decode an editor reply.  A reply without a readable verdict counts as a
/// pass, so a malformed critique can never block publication.  What a
/// brace-delimited span decodes to is serde_json's to say; a reply without
/// such a span is provably a pass.
pub fn parse_review(response: &str) -> (v: ReviewVerdict)
    ensures
        braced_span(response@) is None ==> v.pass && v.critique@ == "JSON Parse Error"@,
{
    let braced = extract_braced(response);
    match braced {
        Some(sub) => {
            match json_parse(sub.as_str()) {
                Some(val) => {
                    let pass = match json_get(&val, "pass") {
                        Some(p) => match json_as_bool(p) {
                            Some(b) => b,
                            None => true,
                        },
                        None => true,
                    };
                    let critique = match json_get(&val, "critique") {
                        Some(c) => match json_as_string(c) {
                            Some(s) => s,
                            None => String::from_str("JSON Parse Error"),
                        },
                        None => String::from_str("JSON Parse Error"),
                    };
                    ReviewVerdict { pass, critique }
                },
                None => ReviewVerdict {
                    pass: true,
                    critique: String::from_str("JSON Parse Error"),
                },
            }
        },
        None => ReviewVerdict { pass: true, critique: String::from_str("JSON Parse Error") },
    }
}

/// Decode a merge reply into a combined title and summary, when readable;
/// a reply without a brace-delimited span provably yields nothing, so the
/// caller keeps the cluster unmerged.
pub fn parse_merge_response(response: &str) -> (r: Option<(String, String)>)
    ensures
        braced_span(response@) is None ==> r is None,
{
    match extract_braced(response) {
        Some(sub) => match json_parse(sub.as_str()) {
            Some(val) => {
                let title = match json_get(&val, "title") {
                    Some(t) => json_as_string(t),
                    None => None,
                };
                let summary = match json_get(&val, "summary") {
                    Some(t) => json_as_string(t),
                    None => None,
                };
                match (title, summary) {
                    (Some(t), Some(s)) => Some((t, s)),
                    _ => None,
                }
            },
            None => None,
        },
        None => None,
    }
}

/// Decode an update-check reply: `Some(summary)` exactly when the reply
/// affirms a substantial update and carries one.  A reply without a
/// brace-delimited span provably yields `None`, which the caller treats as
/// a discard.
pub fn parse_update_response(response: &str) -> (r: Option<String>)
    ensures
        braced_span(response@) is None ==> r is None,
{
    match extract_braced(response) {
        Some(sub) => match json_parse(sub.as_str()) {
            Some(val) => {
                let has_update = match json_get(&val, "has_update") {
                    Some(h) => match json_as_bool(h) {
                        Some(b) => b,
                        None => false,
                    },
                    None => false,
                };
                if has_update {
                    match json_get(&val, "update_summary") {
                        Some(u) => json_as_string(u),
                        None => None,
                    }
                } else {
                    None
                }
            },
            None => None,
        },
        None => None,
    }
}

/// Decode a title-extraction reply, when it carries a JSON title field; a
/// reply without a brace-delimited span provably yields `None`, sending the
/// caller to its fallback title.
pub fn parse_title_response(response: &str) -> (r: Option<String>)
    ensures
        braced_span(response@) is None ==> r is None,
{
    match extract_braced(response) {
        Some(sub) => match json_parse(sub.as_str()) {
            Some(val) => match json_get(&val, "title") {
                Some(t) => json_as_string(t),
                None => None,
            },
            None => None,
        },
        None => None,
    }
}

/// Decode a structure-planning reply into candidate groups, when readable;
/// a reply without a bracket-delimited span provably yields `None`, and the
/// caller validates whatever does decode.
pub fn parse_structure_response(response: &str) -> (r: Option<Vec<Vec<usize>>>)
    ensures
        bracketed_span(response@) is None ==> r is None,
{
    // The planner answers with a bracketed two-dimensional array rather
    // than an object.
    match extract_bracketed(response) {
        Some(sub) => json_parse_groups(sub.as_str()),
        None => None,
    }
}

} // verus!
