//! Episode assembly decisions: structure-plan validation with its chunked
//! fallback, per-group item selection, summary compression, narrative
//! context threading, the runaway-length guard, title extraction
//! fallbacks, the skip rule around the `TITLE:` header line, and the
//! holiday greeting table.
use vstd::prelude::*;
use vstd::string::*;
use vstd::slice::slice_subrange;
use crate::flush::BroadcastItem;
use crate::fingerprint::chars_vec;
use crate::external::string_from_chars;
use crate::textproc::{
    char_utf8_len, utf8_len, utf8_len_of, trim_of, trim_chars, is_terminator, is_terminator_char,
    match_at, find_first, take_at_most,
};

verus! {

/// Structure plans and segment drafts get this many attempts before the
/// fallback takes over.
pub const MAX_PLAN_ATTEMPTS: u32 = 3;

/// The fallback structure plan groups this many stories together.
pub const FALLBACK_GROUP_SIZE: usize = 4;

/// A draft segment longer than this many bytes is rejected as runaway
/// repetition, and truncated once the attempt budget is spent.
pub const MAX_SEGMENT_BYTES: usize = 5000;

/// A summary longer than this many characters is compressed before
/// segment generation.
pub const MAX_SUMMARY_CHARS: usize = 180;

/// All group members, in plan order.
pub open spec fn flatten_groups(groups: Seq<Seq<usize>>) -> Seq<usize>
    decreases groups.len(),
{
    if groups.len() == 0 {
        Seq::empty()
    } else {
        flatten_groups(groups.drop_last()) + groups.last()
    }
}

/// A structure plan is valid for the given story identifiers when it lists
/// exactly as many identifiers, mentions exactly the given ones, and has
/// no empty group.
pub open spec fn valid_structure(groups: Seq<Seq<usize>>, ids: Seq<usize>) -> bool {
    &&& flatten_groups(groups).len() == ids.len()
    &&& forall|x: usize| flatten_groups(groups).contains(x) <==> ids.contains(x)
    &&& forall|g: int| 0 <= g < groups.len() ==> (#[trigger] groups[g]).len() > 0
}

/// Flatten a plan.
pub fn flatten(groups: &Vec<Vec<usize>>) -> (r: Vec<usize>)
    ensures
        r@ == flatten_groups(groups@.map_values(|g: Vec<usize>| g@)),
{
    let ghost m = groups@.map_values(|g: Vec<usize>| g@);
    let mut r: Vec<usize> = Vec::new();
    let mut g: usize = 0;
    while g < groups.len()
        invariant
            g <= groups@.len(),
            m == groups@.map_values(|g: Vec<usize>| g@),
            r@ == flatten_groups(m.take(g as int)),
        decreases groups@.len() - g,
    {
        proof {
            assert(m.take(g + 1).drop_last() =~= m.take(g as int));
            assert(m.take(g + 1).last() == m[g as int]);
        }
        let inner = &groups[g];
        let mut k: usize = 0;
        while k < inner.len()
            invariant
                g < groups@.len(),
                m == groups@.map_values(|g: Vec<usize>| g@),
                inner == &groups@[g as int],
                k <= inner@.len(),
                r@ == flatten_groups(m.take(g as int)) + m[g as int].take(k as int),
            decreases inner@.len() - k,
        {
            r.push(inner[k]);
            proof {
                assert(r@ =~= flatten_groups(m.take(g as int)) + m[g as int].take(k + 1));
            }
            k = k + 1;
        }
        proof {
            assert(m[g as int].take(m[g as int].len() as int) =~= m[g as int]);
            assert(r@ =~= flatten_groups(m.take(g + 1)));
        }
        g = g + 1;
    }
    proof {
        assert(m.take(m.len() as int) =~= m);
    }
    r
}

/// Whether a vector holds a value.
pub fn vec_contains(v: &Vec<usize>, x: usize) -> (r: bool)
    ensures
        r == v@.contains(x),
{
    let mut i: usize = 0;
    while i < v.len()
        invariant
            i <= v@.len(),
            forall|k: int| 0 <= k < i ==> v@[k] != x,
        decreases v@.len() - i,
    {
        if v[i] == x {
            return true;
        }
        i = i + 1;
    }
    false
}

/// Validate a structure plan strictly: every given identifier exactly
/// once, no extras, no empty group.
pub fn validate_structure(groups: &Vec<Vec<usize>>, ids: &Vec<usize>) -> (r: bool)
    ensures
        r == valid_structure(groups@.map_values(|g: Vec<usize>| g@), ids@),
{
    let ghost m = groups@.map_values(|g: Vec<usize>| g@);
    let flat = flatten(groups);
    if flat.len() != ids.len() {
        return false;
    }
    let mut i: usize = 0;
    while i < flat.len()
        invariant
            flat@ == flatten_groups(m),
            m == groups@.map_values(|g: Vec<usize>| g@),
            i <= flat@.len(),
            forall|k: int| 0 <= k < i ==> ids@.contains(#[trigger] flat@[k]),
        decreases flat@.len() - i,
    {
        if !vec_contains(ids, flat[i]) {
            proof {
                assert(flatten_groups(m).contains(flat@[i as int]));
            }
            return false;
        }
        i = i + 1;
    }
    let mut j: usize = 0;
    while j < ids.len()
        invariant
            flat@ == flatten_groups(m),
            m == groups@.map_values(|g: Vec<usize>| g@),
            j <= ids@.len(),
            forall|k: int| 0 <= k < j ==> flat@.contains(#[trigger] ids@[k]),
        decreases ids@.len() - j,
    {
        if !vec_contains(&flat, ids[j]) {
            proof {
                assert(ids@.contains(ids@[j as int]));
            }
            return false;
        }
        j = j + 1;
    }
    let mut g: usize = 0;
    while g < groups.len()
        invariant
            flat@ == flatten_groups(m),
            m == groups@.map_values(|g: Vec<usize>| g@),
            g <= groups@.len(),
            forall|k: int| 0 <= k < g ==> (#[trigger] m[k]).len() > 0,
        decreases groups@.len() - g,
    {
        if groups[g].len() == 0 {
            proof {
                assert(m[g as int].len() == 0);
            }
            return false;
        }
        g = g + 1;
    }
    proof {
        assert forall|x: usize| flatten_groups(m).contains(x) implies ids@.contains(x) by {
            let k = choose|k: int| 0 <= k < flat@.len() && flat@[k] == x;
            assert(ids@.contains(flat@[k]));
        }
        assert forall|x: usize| ids@.contains(x) implies flatten_groups(m).contains(x) by {
            let k = choose|k: int| 0 <= k < ids@.len() && ids@[k] == x;
            assert(flat@.contains(ids@[k]));
        }
    }
    true
}

/// The fixed-size chunking of the identifiers, in original order.
pub open spec fn chunked(ids: Seq<usize>, size: int) -> Seq<Seq<usize>>
    decreases ids.len(),
{
    if ids.len() == 0 {
        Seq::empty()
    } else if ids.len() <= size || size < 1 {
        seq![ids]
    } else {
        seq![ids.take(size)] + chunked(ids.skip(size), size)
    }
}

/// Chunking flattens back to the original identifiers.
pub proof fn lemma_chunked_flattens(ids: Seq<usize>, size: int)
    requires
        size >= 1,
    ensures
        flatten_groups(chunked(ids, size)) == ids,
    decreases ids.len(),
{
    if ids.len() == 0 {
        assert(flatten_groups(chunked(ids, size)) =~= ids);
    } else if ids.len() <= size {
        assert(chunked(ids, size) == seq![ids]);
        assert(chunked(ids, size).drop_last() =~= Seq::<Seq<usize>>::empty());
        assert(chunked(ids, size).last() == ids);
        assert(flatten_groups(chunked(ids, size)) == flatten_groups(
            chunked(ids, size).drop_last(),
        ) + ids);
        assert(flatten_groups(chunked(ids, size)) =~= ids);
    } else {
        lemma_chunked_flattens(ids.skip(size), size);
        lemma_flatten_prepend(ids.take(size), chunked(ids.skip(size), size));
        assert(ids.take(size) + ids.skip(size) =~= ids);
    }
}

/// Flattening after prepending one group prepends its members.
proof fn lemma_flatten_prepend(g: Seq<usize>, rest: Seq<Seq<usize>>)
    ensures
        flatten_groups(seq![g] + rest) == g + flatten_groups(rest),
    decreases rest.len(),
{
    if rest.len() == 0 {
        assert((seq![g] + rest).drop_last() =~= Seq::<Seq<usize>>::empty());
        assert((seq![g] + rest).last() == g);
        assert(flatten_groups(seq![g] + rest) == flatten_groups(
            (seq![g] + rest).drop_last(),
        ) + (seq![g] + rest).last());
        assert(flatten_groups(seq![g] + rest) =~= g + flatten_groups(rest));
    } else {
        lemma_flatten_prepend(g, rest.drop_last());
        assert((seq![g] + rest).drop_last() =~= seq![g] + rest.drop_last());
        assert((seq![g] + rest).last() == rest.last());
        assert(flatten_groups(seq![g] + rest) == flatten_groups(
            seq![g] + rest.drop_last(),
        ) + rest.last());
        assert(flatten_groups(rest) == flatten_groups(rest.drop_last()) + rest.last());
        assert(flatten_groups(seq![g] + rest) =~= g + flatten_groups(rest));
    }
}

/// The fallback plan is itself a valid structure.
pub proof fn lemma_chunked_valid(ids: Seq<usize>, size: int)
    requires
        size >= 1,
    ensures
        valid_structure(chunked(ids, size), ids),
    decreases ids.len(),
{
    lemma_chunked_flattens(ids, size);
    if ids.len() == 0 {
    } else if ids.len() <= size {
    } else {
        lemma_chunked_valid(ids.skip(size), size);
        assert forall|g: int| 0 <= g < chunked(ids, size).len() implies (#[trigger] chunked(
            ids,
            size,
        )[g]).len() > 0 by {
            if g > 0 {
                assert(chunked(ids, size)[g] == chunked(ids.skip(size), size)[g - 1]);
            }
        }
    }
}

/// The fallback structure plan: groups of four, in original order.
pub fn fallback_groups(ids: &Vec<usize>) -> (r: Vec<Vec<usize>>)
    ensures
        r@.map_values(|g: Vec<usize>| g@) == chunked(ids@, FALLBACK_GROUP_SIZE as int),
        valid_structure(r@.map_values(|g: Vec<usize>| g@), ids@),
{
    let mut r: Vec<Vec<usize>> = Vec::new();
    let mut i: usize = 0;
    let n = ids.len();
    while i < n
        invariant
            n == ids@.len(),
            i <= n,
            i == n || i % FALLBACK_GROUP_SIZE == 0,
            r@.map_values(|g: Vec<usize>| g@) == chunked_prefix(ids@, i as int),
        decreases n - i,
    {
        let upto = if n - i < FALLBACK_GROUP_SIZE {
            n
        } else {
            i + FALLBACK_GROUP_SIZE
        };
        let mut group: Vec<usize> = Vec::new();
        let mut k: usize = i;
        while k < upto
            invariant
                i <= k <= upto <= n,
                n == ids@.len(),
                group@ =~= ids@.subrange(i as int, k as int),
            decreases upto - k,
        {
            group.push(ids[k]);
            k = k + 1;
        }
        let ghost pre = r@.map_values(|g: Vec<usize>| g@);
        let ghost gv = group@;
        r.push(group);
        proof {
            assert(r@.map_values(|g: Vec<usize>| g@) =~= pre.push(gv));
            lemma_chunked_prefix_step(ids@, i as int, upto as int);
        }
        i = upto;
    }
    proof {
        assert(chunked_prefix(ids@, n as int) == chunked(ids@, FALLBACK_GROUP_SIZE as int)) by {
            lemma_chunked_prefix_full(ids@);
        }
        lemma_chunked_valid(ids@, FALLBACK_GROUP_SIZE as int);
    }
    r
}

/// The chunking of the first `upto` identifiers, `upto` a multiple of the
/// group size.
pub open spec fn chunked_prefix(ids: Seq<usize>, upto: int) -> Seq<Seq<usize>> {
    chunked(ids.take(upto), FALLBACK_GROUP_SIZE as int)
}

/// Chunking one more full-or-final group appends it.
proof fn lemma_chunked_prefix_step(ids: Seq<usize>, i: int, upto: int)
    requires
        0 <= i < upto <= ids.len(),
        i % (FALLBACK_GROUP_SIZE as int) == 0,
        upto == if ids.len() - i < FALLBACK_GROUP_SIZE {
            ids.len() as int
        } else {
            i + FALLBACK_GROUP_SIZE
        },
    ensures
        chunked_prefix(ids, upto) == chunked_prefix(ids, i).push(ids.subrange(i, upto)),
    decreases i,
{
    let size = FALLBACK_GROUP_SIZE as int;
    if i == 0 {
        if ids.len() <= size {
            assert(ids.take(upto) =~= ids.take(ids.len() as int));
            assert(ids.take(upto) =~= ids.subrange(0, upto));
            assert(chunked_prefix(ids, 0) =~= Seq::<Seq<usize>>::empty());
            assert(chunked(ids.take(upto), size) =~= seq![ids.subrange(0, upto)]);
            assert(chunked_prefix(ids, upto) =~= chunked_prefix(ids, 0).push(
                ids.subrange(0, upto),
            ));
        } else {
            assert(upto == size);
            assert(ids.take(upto).len() == size);
            assert(chunked(ids.take(upto), size) =~= seq![ids.take(upto)]);
            assert(ids.take(upto) =~= ids.subrange(0, upto));
            assert(chunked_prefix(ids, upto) =~= chunked_prefix(ids, 0).push(
                ids.subrange(0, upto),
            ));
        }
    } else {
        // Both chunkings start with the same first group; step the rest.
        let tail = ids.skip(size);
        assert(ids.take(upto).len() > size);
        assert(chunked(ids.take(upto), size) == seq![ids.take(upto).take(size)] + chunked(
            ids.take(upto).skip(size),
            size,
        ));
        assert(ids.take(i).len() >= size);
        if ids.take(i).len() == size {
            assert(chunked(ids.take(i), size) == seq![ids.take(i)]);
            assert(ids.take(i).take(size) =~= ids.take(i));
            assert(ids.take(i).skip(size) =~= Seq::<usize>::empty());
            assert(chunked(ids.take(i).skip(size), size) =~= Seq::<Seq<usize>>::empty());
            assert(chunked(ids.take(i), size) =~= seq![ids.take(i).take(size)] + chunked(
                ids.take(i).skip(size),
                size,
            ));
        }
        assert(chunked(ids.take(i), size) =~= seq![ids.take(i).take(size)] + chunked(
            ids.take(i).skip(size),
            size,
        ));
        assert(ids.take(upto).take(size) =~= ids.take(i).take(size));
        assert(ids.take(upto).skip(size) =~= tail.take(upto - size));
        assert(ids.take(i).skip(size) =~= tail.take(i - size));
        lemma_chunked_prefix_step(tail, i - size, upto - size);
        assert(tail.subrange(i - size, upto - size) =~= ids.subrange(i, upto));
        assert(chunked_prefix(ids, upto) =~= chunked_prefix(ids, i).push(ids.subrange(i, upto)));
    }
}

/// The full prefix chunking is the chunking.
proof fn lemma_chunked_prefix_full(ids: Seq<usize>)
    ensures
        chunked_prefix(ids, ids.len() as int) == chunked(ids, FALLBACK_GROUP_SIZE as int),
{
    assert(ids.take(ids.len() as int) =~= ids);
}

/// The first story with the given identifier, if any.
pub open spec fn find_story(items: Seq<crate::flush::BItemV>, id: usize) -> Option<
    crate::flush::BItemV,
>
    decreases items.len(),
{
    if items.len() == 0 {
        None
    } else if items[0].id == id {
        Some(items[0])
    } else {
        find_story(items.drop_first(), id)
    }
}

/// The stories selected by a group: for each listed identifier in order,
/// the first story carrying it; identifiers with no story are skipped.
pub open spec fn picked_stories(
    items: Seq<crate::flush::BItemV>,
    group: Seq<usize>,
) -> Seq<crate::flush::BItemV>
    decreases group.len(),
{
    if group.len() == 0 {
        Seq::empty()
    } else {
        let rest = picked_stories(items, group.drop_last());
        match find_story(items, group.last()) {
            Some(it) => rest.push(it),
            None => rest,
        }
    }
}

/// A scan that passes `upto` distinct-id misses and then hits finds what
/// `find_story` finds.
proof fn lemma_find_story_scan(items: Seq<crate::flush::BItemV>, id: usize, upto: int)
    requires
        0 <= upto <= items.len(),
        forall|k: int| 0 <= k < upto ==> (#[trigger] items[k]).id != id,
        upto == items.len() || items[upto].id == id,
    ensures
        upto == items.len() ==> find_story(items, id) is None,
        upto < items.len() ==> find_story(items, id) == Some(items[upto]),
    decreases upto,
{
    if items.len() > 0 && items[0].id != id {
        let d = items.drop_first();
        assert(forall|k: int| 0 <= k < upto - 1 ==> (#[trigger] d[k]).id != id);
        lemma_find_story_scan(d, id, upto - 1);
    }
}

/// Select the stories of one planned group, in group order.
pub fn items_for_group(items: &Vec<BroadcastItem>, group: &Vec<usize>) -> (r: Vec<BroadcastItem>)
    ensures
        r@.map_values(|b: BroadcastItem| b@) == picked_stories(
            items@.map_values(|b: BroadcastItem| b@),
            group@,
        ),
{
    let ghost iv = items@.map_values(|b: BroadcastItem| b@);
    let mut r: Vec<BroadcastItem> = Vec::new();
    let mut g: usize = 0;
    while g < group.len()
        invariant
            iv == items@.map_values(|b: BroadcastItem| b@),
            g <= group@.len(),
            r@.map_values(|b: BroadcastItem| b@) == picked_stories(iv, group@.take(g as int)),
        decreases group@.len() - g,
    {
        proof {
            assert(group@.take(g + 1).drop_last() =~= group@.take(g as int));
            assert(group@.take(g + 1).last() == group@[g as int]);
        }
        let id = group[g];
        let mut j: usize = 0;
        let mut found = false;
        while j < items.len() && !found
            invariant
                iv == items@.map_values(|b: BroadcastItem| b@),
                j <= items@.len(),
                found ==> j < items@.len() && iv[j as int].id == id,
                forall|k: int| 0 <= k < j ==> (#[trigger] iv[k]).id != id,
            decreases items@.len() - j + if found {
                0int
            } else {
                1int
            },
        {
            if items[j].id == id {
                found = true;
            } else {
                j = j + 1;
            }
        }
        let ghost pre = r@.map_values(|b: BroadcastItem| b@);
        if found {
            proof {
                lemma_find_story_scan(iv, id, j as int);
            }
            r.push(items[j].clone());
            proof {
                assert(r@.map_values(|b: BroadcastItem| b@) =~= pre.push(iv[j as int]));
            }
        } else {
            proof {
                lemma_find_story_scan(iv, id, items@.len() as int);
            }
        }
        g = g + 1;
    }
    proof {
        assert(group@.take(group@.len() as int) =~= group@);
    }
    r
}

/// Whether a summary is long enough to be compressed before segment
/// generation.
pub fn needs_compression(summary: &str) -> (r: bool)
    ensures
        r == (summary@.len() > MAX_SUMMARY_CHARS),
{
    summary.unicode_len() > MAX_SUMMARY_CHARS
}

/// Replace a story's summary with its compressed form, trimmed.
pub fn apply_compression(item: &mut BroadcastItem, compressed: &str)
    ensures
        final(item).summary@ == trim_of(compressed@),
        final(item).id == old(item).id,
        final(item).title == old(item).title,
        final(item).source_name == old(item).source_name,
        final(item).original_url == old(item).original_url,
        final(item).is_update == old(item).is_update,
{
    let t = trim_chars(compressed);
    item.summary = string_from_chars(t.as_slice());
}

/// The episode title decided from a title-extraction reply: the parsed
/// JSON title when the reply carried one; otherwise the raw reply, unless
/// it looks like an unstructured dump (over 100 bytes or spanning lines),
/// in which case a safe generic title names the category.
pub open spec fn episode_title_spec(
    parsed: Option<Seq<char>>,
    response: Seq<char>,
    category: Seq<char>,
) -> Seq<char> {
    match parsed {
        Some(t) => trim_of(t),
        None => {
            let raw = trim_of(response);
            if utf8_len(raw) > 100 || raw.contains('\n') {
                category + " News Briefing"@
            } else {
                raw
            }
        },
    }
}

/// Decide the episode title from the parsed reply and its raw text.
pub fn episode_title(parsed: Option<String>, response: &str, category: &str) -> (r: String)
    ensures
        ({
            let p = match parsed {
                Some(t) => Some(t@),
                None => None,
            };
            r@ == episode_title_spec(p, response@, category@)
        }),
{
    match parsed {
        Some(t) => {
            let tc = trim_chars(t.as_str());
            string_from_chars(tc.as_slice())
        },
        None => {
            let raw = trim_chars(response);
            let blen = crate::textproc::utf8_len_of(raw.as_slice());
            let mut has_nl = false;
            let mut i: usize = 0;
            while i < raw.len()
                invariant
                    i <= raw@.len(),
                    has_nl == exists|k: int| 0 <= k < i && raw@[k] == '\n',
                decreases raw@.len() - i,
            {
                if raw[i] == '\n' {
                    has_nl = true;
                }
                i = i + 1;
            }
            proof {
                if has_nl {
                    assert(raw@.contains('\n'));
                } else {
                    if raw@.contains('\n') {
                        let k = choose|k: int| 0 <= k < raw@.len() && raw@[k] == '\n';
                        assert(false);
                    }
                }
            }
            if blen > 100 || has_nl {
                let mut r = String::from_str(category);
                r.append(" News Briefing");
                r
            } else {
                string_from_chars(raw.as_slice())
            }
        },
    }
}

/// The characters after the last sentence terminator.
pub open spec fn tail_segment(s: Seq<char>) -> Seq<char>
    decreases s.len(),
{
    if s.len() == 0 || is_terminator(s.last()) {
        Seq::empty()
    } else {
        tail_segment(s.drop_last()).push(s.last())
    }
}

/// The tail segment never outgrows the text.
proof fn lemma_tail_segment_len(s: Seq<char>)
    ensures
        tail_segment(s).len() <= s.len(),
    decreases s.len(),
{
    if !(s.len() == 0 || is_terminator(s.last())) {
        lemma_tail_segment_len(s.drop_last());
    }
}

/// The last sentence of a text: the last terminator-delimited segment
/// whose trimmed form is non-empty, trimmed and capped at one hundred
/// characters; empty when no such segment exists.
pub open spec fn last_sentence(s: Seq<char>) -> Seq<char>
    decreases s.len(),
{
    let t = tail_segment(s);
    if trim_of(t).len() > 0 {
        take_at_most(trim_of(t), 100)
    } else if t.len() < s.len() {
        last_sentence(s.take(s.len() - t.len() - 1))
    } else {
        Seq::empty()
    }
}

/// With no terminator among the trailing non-terminator characters, the
/// tail segment is exactly that trailing stretch.
proof fn lemma_tail_segment_at(s: Seq<char>, p: int)
    requires
        0 <= p <= s.len(),
        p == 0 || is_terminator(s[p - 1]),
        forall|k: int| p <= k < s.len() ==> !is_terminator(s[k]),
    ensures
        tail_segment(s) == s.subrange(p, s.len() as int),
    decreases s.len() - p,
{
    if p == s.len() {
        assert(s.subrange(p, s.len() as int) =~= Seq::<char>::empty());
        if s.len() > 0 {
            assert(is_terminator(s.last()));
        }
    } else {
        assert(!is_terminator(s.last()));
        let d = s.drop_last();
        lemma_tail_segment_at(d, p);
        assert(d.subrange(p, d.len() as int) =~= s.subrange(p, s.len() as int).drop_last());
        assert(tail_segment(s) =~= s.subrange(p, s.len() as int));
    }
}

/// Extract the last non-empty sentence of a segment, for threading as the
/// next segment's context.
pub fn extract_last_sentence(text: &str) -> (r: String)
    ensures
        r@ == last_sentence(text@),
{
    let chars = chars_vec(text);
    let r = last_sentence_chars(chars.as_slice());
    string_from_chars(r.as_slice())
}

/// The recursive worker behind `extract_last_sentence`.
fn last_sentence_chars(chars: &[char]) -> (r: Vec<char>)
    ensures
        r@ == last_sentence(chars@),
    decreases chars@.len(),
{
    let n = chars.len();
    let mut p: usize = n;
    while p > 0 && !is_terminator_char(chars[p - 1])
        invariant
            p <= n,
            n == chars@.len(),
            forall|k: int| p <= k < n ==> !is_terminator(chars@[k]),
        decreases p,
    {
        p = p - 1;
    }
    proof {
        lemma_tail_segment_at(chars@, p as int);
    }
    let tail = slice_subrange(chars, p, n);
    let (a, b) = crate::textproc::trim_bounds(tail);
    if b > a {
        let mut out: Vec<char> = Vec::new();
        let upto = if b - a > 100 {
            a + 100
        } else {
            b
        };
        let mut i: usize = a;
        while i < upto
            invariant
                a <= i <= upto <= tail@.len(),
                out@ =~= tail@.subrange(a as int, i as int),
            decreases upto - i,
        {
            out.push(tail[i]);
            i = i + 1;
        }
        proof {
            assert(out@ =~= tail@.subrange(a as int, upto as int));
            assert(tail@.subrange(a as int, b as int) == trim_of(tail@));
            if b - a > 100 {
                assert(tail@.subrange(a as int, upto as int) =~= trim_of(tail@).take(100));
            } else {
                assert(tail@.subrange(a as int, upto as int) =~= trim_of(tail@));
            }
        }
        out
    } else if p == 0 {
        proof {
            assert(trim_of(tail_segment(chars@)).len() == 0);
            assert(tail_segment(chars@).len() == chars@.len());
            assert(last_sentence(chars@) =~= Seq::<char>::empty());
        }
        Vec::new()
    } else {
        proof {
            assert(trim_of(tail_segment(chars@)).len() == 0);
            lemma_tail_segment_len(chars@);
            assert(tail_segment(chars@).len() == n - p);
        }
        let head = slice_subrange(chars, 0, p - 1);
        proof {
            assert(head@ =~= chars@.take(chars@.len() - tail_segment(chars@).len() - 1));
        }
        last_sentence_chars(head)
    }
}

/// A draft segment whose trimmed form is under ten bytes: rejected
/// outright, without spending a collaborator critique on it.
pub open spec fn is_short_draft(s: Seq<char>) -> bool {
    utf8_len(trim_of(s)) < 10
}

/// Whether a draft is too short to be worth reviewing.
pub fn draft_too_short(script: &str) -> (r: bool)
    ensures
        r == is_short_draft(script@),
{
    let trimmed = trim_chars(script);
    let blen = utf8_len_of(trimmed.as_slice());
    blen < 10
}

/// The runaway-length guard: the longest prefix whose UTF-8 encoding fits
/// the byte budget.
pub open spec fn byte_prefix(s: Seq<char>, budget: int) -> Seq<char>
    decreases s.len(),
{
    if utf8_len(s) <= budget {
        s
    } else if s.len() == 0 {
        s
    } else {
        byte_prefix(s.drop_last(), budget)
    }
}

/// Check a draft segment against the byte budget, truncating an overlong
/// one; reports whether it was overlong.
pub fn clamp_segment(script: &str) -> (r: (String, bool))
    ensures
        r.1 == (utf8_len(script@) > MAX_SEGMENT_BYTES),
        !r.1 ==> r.0@ == script@,
        r.1 ==> r.0@ == byte_prefix(script@, MAX_SEGMENT_BYTES as int),
{
    let chars = chars_vec(script);
    let blen = utf8_len_of(chars.as_slice());
    if blen <= MAX_SEGMENT_BYTES {
        proof {
            lemma_utf8_nonneg(chars@);
        }
        return (string_from_chars(chars.as_slice()), false);
    }
    // Scan for the longest prefix within budget.
    let mut acc: usize = 0;
    let mut i: usize = 0;
    let n = chars.len();
    while i < n
        invariant
            i <= n,
            n == chars@.len(),
            chars@ == script@,
            acc == utf8_len(chars@.take(i as int)),
            acc <= MAX_SEGMENT_BYTES,
            utf8_len(chars@) > MAX_SEGMENT_BYTES,
        decreases n - i,
    {
        let c = chars[i];
        let w: usize = if (c as u32) < 0x80 {
            1
        } else if (c as u32) < 0x800 {
            2
        } else if (c as u32) < 0x10000 {
            3
        } else {
            4
        };
        proof {
            assert(chars@.take(i + 1).drop_last() =~= chars@.take(i as int));
            assert(w == char_utf8_len(chars@[i as int]));
        }
        if acc + w > MAX_SEGMENT_BYTES {
            proof {
                lemma_byte_prefix_cut(chars@, i as int, MAX_SEGMENT_BYTES as int);
            }
            let prefix = slice_subrange(chars.as_slice(), 0, i);
            proof {
                assert(prefix@ =~= chars@.take(i as int));
            }
            return (string_from_chars(prefix), true);
        }
        acc = acc + w;
        i = i + 1;
    }
    proof {
        assert(chars@.take(n as int) =~= chars@);
        assert(false);
    }
    (String::new(), true)
}

/// The UTF-8 length is never negative.
proof fn lemma_utf8_nonneg(s: Seq<char>)
    ensures
        utf8_len(s) >= 0,
    decreases s.len(),
{
    if s.len() > 0 {
        lemma_utf8_nonneg(s.drop_last());
    }
}

/// Prefix UTF-8 lengths grow with the prefix.
proof fn lemma_utf8_prefix_mono(s: Seq<char>, a: int, b: int)
    requires
        0 <= a <= b <= s.len(),
    ensures
        utf8_len(s.take(a)) <= utf8_len(s.take(b)),
    decreases b - a,
{
    if a < b {
        lemma_utf8_prefix_mono(s, a, b - 1);
        assert(s.take(b).drop_last() =~= s.take(b - 1));
        assert(utf8_len(s.take(b)) == utf8_len(s.take(b - 1)) + char_utf8_len(s[b - 1]));
    }
}

/// When the prefix of length `i` fits the budget but one more character
/// does not, that prefix is the byte-budget cut of the text.
proof fn lemma_byte_prefix_cut(s: Seq<char>, i: int, budget: int)
    requires
        0 <= i < s.len(),
        utf8_len(s.take(i)) <= budget,
        utf8_len(s.take(i)) + char_utf8_len(s[i]) > budget,
    ensures
        byte_prefix(s, budget) == s.take(i),
    decreases s.len(),
{
    assert(s.take(i + 1).drop_last() =~= s.take(i));
    assert(utf8_len(s.take(i + 1)) > budget);
    lemma_utf8_prefix_mono(s, i + 1, s.len() as int);
    assert(s.take(s.len() as int) =~= s);
    assert(utf8_len(s) > budget);
    if i + 1 == s.len() {
        assert(byte_prefix(s, budget) == byte_prefix(s.drop_last(), budget));
        assert(s.drop_last() =~= s.take(i));
    } else {
        assert(s.drop_last().take(i) =~= s.take(i));
        assert(s.drop_last()[i] == s[i]);
        lemma_byte_prefix_cut(s.drop_last(), i, budget);
    }
}

/// The `TITLE:` header marker.
pub open spec fn title_marker() -> Seq<char> {
    seq!['T', 'I', 'T', 'L', 'E', ':']
}

/// The text with every repetition of the leading `TITLE:` marker removed.
pub open spec fn strip_title_markers(s: Seq<char>) -> Seq<char>
    decreases s.len(),
{
    if match_at(s, title_marker(), 0) {
        strip_title_markers(s.skip(6))
    } else {
        s
    }
}

/// Split a script that opens with a `TITLE:` header line into the header's
/// title and the remaining body; a script without such a first line is
/// returned unchanged with no title.
pub fn split_title_line(text: &str) -> (r: (Option<String>, String))
    ensures
        match_at(text@, title_marker(), 0) && (exists|k: int|
            0 <= k < text@.len() && text@[k] == '\n') ==> ({
            let nl = choose|nl: int|
                0 <= nl < text@.len() && text@[nl] == '\n' && forall|k: int|
                    0 <= k < nl ==> text@[k] != '\n';
            r.0 == Some(r.0->0) && r.0->0@ == trim_of(strip_title_markers(text@.take(nl)))
                && r.1@ == trim_of(text@.skip(nl + 1))
        }),
        !(match_at(text@, title_marker(), 0) && (exists|k: int|
            0 <= k < text@.len() && text@[k] == '\n')) ==> r.0 is None && r.1@ == text@,
{
    let chars = chars_vec(text);
    let mut marker: Vec<char> = Vec::new();
    marker.push('T');
    marker.push('I');
    marker.push('T');
    marker.push('L');
    marker.push('E');
    marker.push(':');
    proof {
        assert(marker@ =~= title_marker());
    }
    let mut nl_marker: Vec<char> = Vec::new();
    nl_marker.push('\n');
    proof {
        assert(nl_marker@ =~= seq!['\n']);
    }
    let starts = match find_first(chars.as_slice(), marker.as_slice()) {
        Some(i) => i == 0,
        None => false,
    };
    if !starts {
        proof {
            if match_at(chars@, title_marker(), 0) {
                assert(false);
            }
        }
        return (None, String::from_str(text));
    }
    let nl = match find_first(chars.as_slice(), nl_marker.as_slice()) {
        Some(i) => i,
        None => {
            proof {
                assert forall|k: int| 0 <= k < chars@.len() implies chars@[k] != '\n' by {
                    assert(!match_at(chars@, seq!['\n'], k));
                    if 0 <= k < chars@.len() && chars@[k] == '\n' {
                        assert(chars@.subrange(k, k + 1) =~= seq!['\n']);
                    }
                }
            }
            return (None, String::from_str(text));
        },
    };
    proof {
        assert(match_at(chars@, seq!['\n'], nl as int));
        assert(chars@.subrange(nl as int, nl as int + 1)[0] == chars@[nl as int]);
        assert(chars@[nl as int] == '\n');
        assert forall|k: int| 0 <= k < nl implies chars@[k] != '\n' by {
            if 0 <= k < nl && chars@[k] == '\n' {
                assert(chars@.subrange(k, k + 1) =~= seq!['\n']);
                assert(match_at(chars@, seq!['\n'], k));
            }
        }
    }
    // Strip repeated TITLE: markers from the header line.
    let header = slice_subrange(chars.as_slice(), 0, nl);
    let mut start: usize = 0;
    proof {
        assert(header@.skip(0) =~= header@);
        assert(title_marker().len() == 6);
    }
    let hn = header.len();
    let mut go = marker_at(header, start, marker.as_slice());
    while go
        invariant
            hn == header@.len(),
            start <= hn,
            marker@ == title_marker(),
            go == match_at(header@, marker@, start as int),
            strip_title_markers(header@) == strip_title_markers(header@.skip(start as int)),
        decreases header@.len() - start,
    {
        proof {
            assert(header@.skip(start as int).subrange(0, 6) =~= header@.subrange(
                start as int,
                start as int + 6,
            ));
            assert(match_at(header@.skip(start as int), title_marker(), 0));
            assert(header@.skip(start as int).skip(6) =~= header@.skip(start as int + 6));
        }
        start = start + 6;
        go = marker_at(header, start, marker.as_slice());
    }
    proof {
        let w = header@.skip(start as int);
        if match_at(w, title_marker(), 0) {
            assert(w.subrange(0, 6) =~= header@.subrange(start as int, start as int + 6));
            assert(match_at(header@, title_marker(), start as int));
            assert(false);
        }
        assert(strip_title_markers(header@) == header@.skip(start as int));
    }
    let title_part = slice_subrange(header, start, header.len());
    let tt = trim_chars_of(title_part);
    let cn = chars.len();
    proof {
        assert(nl < cn);
    }
    let body_part = slice_subrange(chars.as_slice(), nl + 1, cn);
    let bt = trim_chars_of(body_part);
    proof {
        assert(header@.skip(start as int) =~= chars@.take(nl as int).skip(start as int));
        assert(body_part@ =~= chars@.skip(nl as int + 1));
    }
    (Some(string_from_chars(tt.as_slice())), string_from_chars(bt.as_slice()))
}

/// Whether the marker occurs at the given position.
fn marker_at(chars: &[char], pos: usize, marker: &[char]) -> (r: bool)
    requires
        pos <= chars@.len(),
    ensures
        r == match_at(chars@, marker@, pos as int),
{
    let m = marker.len();
    let n = chars.len();
    if m > n - pos {
        return false;
    }
    let mut j: usize = 0;
    while j < m
        invariant
            n == chars@.len(),
            pos + m <= n,
            m == marker@.len(),
            j <= m,
            forall|t: int| 0 <= t < j ==> chars@[pos + t] == marker@[t],
        decreases m - j,
    {
        proof {
            assert(pos + j < chars@.len());
        }
        if chars[pos + j] != marker[j] {
            proof {
                assert(chars@.subrange(pos as int, pos + m as int)[j as int] != marker@[j as int]);
            }
            return false;
        }
        j = j + 1;
    }
    proof {
        assert(chars@.subrange(pos as int, pos + m as int) =~= marker@);
    }
    true
}

/// The trimmed characters of a slice.
fn trim_chars_of(chars: &[char]) -> (r: Vec<char>)
    ensures
        r@ == trim_of(chars@),
{
    let (a, b) = crate::textproc::trim_bounds(chars);
    let mut r: Vec<char> = Vec::new();
    let mut i: usize = a;
    while i < b
        invariant
            a <= i <= b <= chars@.len(),
            r@ =~= chars@.subrange(a as int, i as int),
        decreases b - i,
    {
        r.push(chars[i]);
        i = i + 1;
    }
    proof {
        assert(r@ =~= chars@.subrange(a as int, b as int));
    }
    r
}

/// The greeting owed to the solar date: New Year's Day, Labour Day or
/// National Day.
pub open spec fn solar_greeting(month: u8, day: u8) -> Seq<char> {
    if month == 1 && day == 1 {
        "\u{4eca}\u{5929}\u{662f}\u{5143}\u{65e6}\u{8282}\u{ff0c}"@
    } else if month == 5 && day == 1 {
        "\u{4eca}\u{5929}\u{662f}\u{52b3}\u{52a8}\u{8282}\u{ff0c}"@
    } else if month == 10 && day == 1 {
        "\u{4eca}\u{5929}\u{662f}\u{56fd}\u{5e86}\u{8282}\u{ff0c}"@
    } else {
        Seq::empty()
    }
}

/// The greeting owed to the lunisolar date: Spring Festival, Lantern
/// Festival, Dragon Boat Festival or Mid-Autumn Festival.
pub open spec fn lunar_greeting(lunar: Option<(u8, u8)>) -> Seq<char> {
    match lunar {
        Some(md) => {
            let a: Seq<char> = if md.0 == 1 && md.1 == 1 {
                "\u{4eca}\u{5929}\u{662f}\u{519c}\u{5386}\u{6b63}\u{6708}\u{521d}\u{4e00}\u{ff0c}\u{6625}\u{8282}\u{5feb}\u{4e50}\u{ff01}"@
            } else {
                Seq::empty()
            };
            let b: Seq<char> = if md.0 == 1 && md.1 == 15 {
                "\u{4eca}\u{5929}\u{662f}\u{5143}\u{5bb5}\u{8282}\u{ff0c}"@
            } else {
                Seq::empty()
            };
            let c: Seq<char> = if md.0 == 5 && md.1 == 5 {
                "\u{4eca}\u{5929}\u{662f}\u{7aef}\u{5348}\u{8282}\u{ff0c}"@
            } else {
                Seq::empty()
            };
            let d: Seq<char> = if md.0 == 8 && md.1 == 15 {
                "\u{4eca}\u{5929}\u{662f}\u{4e2d}\u{79cb}\u{8282}\u{ff0c}"@
            } else {
                Seq::empty()
            };
            a + b + c + d
        },
        None => Seq::empty(),
    }
}

/// The holiday context line: empty on an ordinary day, otherwise the
/// greetings of the solar and lunisolar festival tables wrapped in the
/// fixed prompt framing.
pub open spec fn holiday_context_spec(month: u8, day: u8, lunar: Option<(u8, u8)>) -> Seq<char> {
    let g = solar_greeting(month, day) + lunar_greeting(lunar);
    if g.len() > 0 {
        "\u{7279}\u{522b}\u{63d0}\u{793a}\u{ff1a}"@ + g
            + " \u{8bf7}\u{5728}\u{5f00}\u{573a}\u{95ee}\u{5019}\u{4e2d}\u{81ea}\u{7136}\u{878d}\u{5165}\u{8282}\u{65e5}\u{795d}\u{798f}\u{3002}"@
    } else {
        Seq::empty()
    }
}

/// Resolve the holiday greeting for the given solar date and its
/// lunisolar reading.
pub fn holiday_context(month: u8, day: u8, lunar: Option<(u8, u8)>) -> (r: String)
    ensures
        r@ == holiday_context_spec(month, day, lunar),
{
    let mut g = String::new();
    if month == 1 && day == 1 {
        g.append("\u{4eca}\u{5929}\u{662f}\u{5143}\u{65e6}\u{8282}\u{ff0c}");
    } else if month == 5 && day == 1 {
        g.append("\u{4eca}\u{5929}\u{662f}\u{52b3}\u{52a8}\u{8282}\u{ff0c}");
    } else if month == 10 && day == 1 {
        g.append("\u{4eca}\u{5929}\u{662f}\u{56fd}\u{5e86}\u{8282}\u{ff0c}");
    }
    proof {
        assert(g@ =~= solar_greeting(month, day));
    }
    match lunar {
        Some(md) => {
            if md.0 == 1 && md.1 == 1 {
                g.append(
                    "\u{4eca}\u{5929}\u{662f}\u{519c}\u{5386}\u{6b63}\u{6708}\u{521d}\u{4e00}\u{ff0c}\u{6625}\u{8282}\u{5feb}\u{4e50}\u{ff01}",
                );
            }
            if md.0 == 1 && md.1 == 15 {
                g.append("\u{4eca}\u{5929}\u{662f}\u{5143}\u{5bb5}\u{8282}\u{ff0c}");
            }
            if md.0 == 5 && md.1 == 5 {
                g.append("\u{4eca}\u{5929}\u{662f}\u{7aef}\u{5348}\u{8282}\u{ff0c}");
            }
            if md.0 == 8 && md.1 == 15 {
                g.append("\u{4eca}\u{5929}\u{662f}\u{4e2d}\u{79cb}\u{8282}\u{ff0c}");
            }
        },
        None => {},
    }
    proof {
        assert(g@ =~= solar_greeting(month, day) + lunar_greeting(lunar));
    }
    if g.as_str().is_empty() {
        String::new()
    } else {
        let mut r = String::from_str("\u{7279}\u{522b}\u{63d0}\u{793a}\u{ff1a}");
        r.append(g.as_str());
        r.append(
            " \u{8bf7}\u{5728}\u{5f00}\u{573a}\u{95ee}\u{5019}\u{4e2d}\u{81ea}\u{7136}\u{878d}\u{5165}\u{8282}\u{65e5}\u{795d}\u{798f}\u{3002}",
        );
        r
    }
}

/// The greeting word for an hour of the day.
pub open spec fn time_period_spec(hour: u32) -> Seq<char> {
    if hour < 6 {
        "\u{6df1}\u{591c}"@
    } else if hour < 12 {
        "\u{65e9}\u{4e0a}"@
    } else if hour < 14 {
        "\u{4e2d}\u{5348}"@
    } else if hour < 18 {
        "\u{4e0b}\u{5348}"@
    } else if hour < 21 {
        "\u{665a}\u{4e0a}"@
    } else {
        "\u{6df1}\u{591c}"@
    }
}

/// The greeting word for an hour of the day.
pub fn time_period_of_hour(hour: u32) -> (r: String)
    ensures
        r@ == time_period_spec(hour),
{
    if hour < 6 {
        String::from_str("\u{6df1}\u{591c}")
    } else if hour < 12 {
        String::from_str("\u{65e9}\u{4e0a}")
    } else if hour < 14 {
        String::from_str("\u{4e2d}\u{5348}")
    } else if hour < 18 {
        String::from_str("\u{4e0b}\u{5348}")
    } else if hour < 21 {
        String::from_str("\u{665a}\u{4e0a}")
    } else {
        String::from_str("\u{6df1}\u{591c}")
    }
}

/// The category encoded in a regeneration job's title: the part before the
/// first ` - ` separator, or the generic category when there is none.
pub fn category_from_title(title: &str) -> (r: String)
    ensures
        (exists|k: int| match_at(title@, seq![' ', '-', ' '], k)) ==> exists|i: int|
            match_at(title@, seq![' ', '-', ' '], i) && r@ == title@.take(i) && forall|k: int|
                0 <= k < i ==> !match_at(title@, seq![' ', '-', ' '], k),
        !(exists|k: int| match_at(title@, seq![' ', '-', ' '], k)) ==> r@ == "Other"@,
{
    let chars = chars_vec(title);
    let mut sep: Vec<char> = Vec::new();
    sep.push(' ');
    sep.push('-');
    sep.push(' ');
    proof {
        assert(sep@ =~= seq![' ', '-', ' ']);
    }
    match find_first(chars.as_slice(), sep.as_slice()) {
        Some(i) => {
            let prefix = slice_subrange(chars.as_slice(), 0, i);
            proof {
                assert(prefix@ =~= title@.take(i as int));
            }
            string_from_chars(prefix)
        },
        None => String::from_str("Other"),
    }
}

} // verus!
