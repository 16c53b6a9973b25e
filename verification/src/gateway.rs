//! The generation gateway's response cache and reply scrubbing.
//!
//! Every cacheable call is keyed by a content hash of the prompt; a hit
//! within the retention window short-circuits the outside call, and a
//! background sweep deletes entries older than the window.  Replies are
//! scrubbed of the collaborator's reasoning prefix (delimited by a known
//! end marker) before being cached or returned; the stripped portion is
//! only ever handed to an audit log.
use vstd::prelude::*;
use vstd::string::*;
use crate::fingerprint::{fnv64, fnv64_of, chars_vec};
use crate::textproc::{match_at, find_first, trim_of};
use crate::external::string_from_chars;

verus! {

/// Retention window of cached generations, in seconds (7 days).
pub const CACHE_TTL_SECS: u64 = 604800;

/// A cached generation.
pub struct CacheEntry {
    pub created_at: u64,
    pub content: String,
}

/// Mathematical model of a cached generation.
pub ghost struct CacheEntryV {
    pub created_at: u64,
    pub content: Seq<char>,
}

impl View for CacheEntry {
    type V = CacheEntryV;

    open spec fn view(&self) -> CacheEntryV {
        CacheEntryV { created_at: self.created_at, content: self.content@ }
    }
}

/// The cache key of a prompt: its content hash.
pub open spec fn prompt_key(prompt: Seq<char>) -> u64 {
    fnv64_of(prompt)
}

/// A cache entry answers a lookup at `now` when its age is within the
/// retention window.
pub open spec fn entry_fresh(e: CacheEntryV, now: u64) -> bool {
    now < e.created_at + CACHE_TTL_SECS
}

/// An entry survives the sweep at `now` unless it is older than the
/// retention window.
pub open spec fn entry_retained(e: (u64, CacheEntryV), now: u64) -> bool {
    now <= e.1.created_at + CACHE_TTL_SECS
}

/// What the sweep at `now` keeps.
pub open spec fn retained_entries(s: Seq<(u64, CacheEntryV)>, now: u64) -> Seq<(u64, CacheEntryV)> {
    s.filter(|e: (u64, CacheEntryV)| entry_retained(e, now))
}

/// Pairwise distinctness of cache keys.
pub open spec fn unique_cache_keys(s: Seq<(u64, CacheEntryV)>) -> bool {
    forall|i: int, j: int| 0 <= i < j < s.len() ==> (#[trigger] s[i]).0 != (#[trigger] s[j]).0
}

/// The content-addressed response cache.
pub struct GenCache {
    entries: Vec<(u64, CacheEntry)>,
}

impl View for GenCache {
    type V = Seq<(u64, CacheEntryV)>;

    closed spec fn view(&self) -> Seq<(u64, CacheEntryV)> {
        self.entries@.map_values(|e: (u64, CacheEntry)| (e.0, e.1@))
    }
}

impl GenCache {
    /// Keys are never stored twice.
    pub open spec fn wf(&self) -> bool {
        unique_cache_keys(self@)
    }

    /// An empty cache.
    pub fn new() -> (r: Self)
        ensures
            r@ =~= Seq::<(u64, CacheEntryV)>::empty(),
            r.wf(),
    {
        GenCache { entries: Vec::new() }
    }

    /// Look the prompt up: its cached content when a fresh entry exists
    /// under its hash.
    pub fn lookup_at(&self, prompt: &str, now: u64) -> (r: Option<String>)
        ensures
            match r {
                Some(content) => exists|i: int|
                    0 <= i < self@.len() && (#[trigger] self@[i]).0 == prompt_key(prompt@)
                        && entry_fresh(self@[i].1, now) && content@ == self@[i].1.content,
                None => forall|i: int|
                    0 <= i < self@.len() ==> !((#[trigger] self@[i]).0 == prompt_key(prompt@)
                        && entry_fresh(self@[i].1, now)),
            },
    {
        let chars = chars_vec(prompt);
        let h = fnv64(chars.as_slice());
        let mut i: usize = 0;
        while i < self.entries.len()
            invariant
                h == prompt_key(prompt@),
                i <= self.entries@.len(),
                self@.len() == self.entries@.len(),
                forall|k: int|
                    0 <= k < i ==> !((#[trigger] self@[k]).0 == prompt_key(prompt@)
                        && entry_fresh(self@[k].1, now)),
            decreases self.entries@.len() - i,
        {
            if self.entries[i].0 == h {
                let created = self.entries[i].1.created_at;
                let fresh = if CACHE_TTL_SECS <= u64::MAX - created {
                    now < created + CACHE_TTL_SECS
                } else {
                    true
                };
                if fresh {
                    proof {
                        assert((#[trigger] self@[i as int]).0 == prompt_key(prompt@));
                        assert(entry_fresh(self@[i as int].1, now));
                    }
                    return Some(self.entries[i].1.content.clone());
                }
            }
            i = i + 1;
        }
        None
    }

    /// Record the response for a prompt at the given time, overwriting any
    /// earlier entry under the same hash.
    pub fn store_at(&mut self, prompt: &str, content: &str, now: u64)
        requires
            old(self).wf(),
        ensures
            final(self).wf(),
            ({
                let h = prompt_key(prompt@);
                let entry = (h, CacheEntryV { created_at: now, content: content@ });
                &&& !(exists|i: int| 0 <= i < old(self)@.len() && (#[trigger] old(self)@[i]).0
                    == h) ==> final(self)@ == old(self)@.push(entry)
                &&& (exists|i: int| 0 <= i < old(self)@.len() && (#[trigger] old(self)@[i]).0 == h)
                    ==> exists|j: int|
                    0 <= j < old(self)@.len() && (#[trigger] old(self)@[j]).0 == h
                        && final(self)@ == old(self)@.update(j, entry)
            }),
    {
        let chars = chars_vec(prompt);
        let h = fnv64(chars.as_slice());
        let entry = CacheEntry { created_at: now, content: String::from_str(content) };
        let ghost old_model = self@;
        let ghost ev = (h, entry@);
        let mut i: usize = 0;
        while i < self.entries.len()
            invariant
                old_model == old(self)@,
                self@ == old_model,
                self.wf(),
                h == prompt_key(prompt@),
                ev == (h, CacheEntryV { created_at: now, content: content@ }),
                entry@ == ev.1,
                i <= self.entries@.len(),
                self@.len() == self.entries@.len(),
                forall|k: int| 0 <= k < i ==> (#[trigger] self@[k]).0 != h,
            decreases self.entries@.len() - i,
        {
            if self.entries[i].0 == h {
                proof {
                    assert((#[trigger] old_model[i as int]).0 == h);
                }
                self.entries.set(i, (h, entry));
                proof {
                    assert(self@ =~= old_model.update(i as int, ev));
                    assert forall|x: int, y: int| 0 <= x < y < self@.len() implies (
                    #[trigger] self@[x]).0 != (#[trigger] self@[y]).0 by {
                        assert(old_model[x].0 != old_model[y].0);
                    }
                }
                return ;
            }
            i = i + 1;
        }
        self.entries.push((h, entry));
        proof {
            assert(self@ =~= old_model.push(ev));
            assert forall|x: int, y: int| 0 <= x < y < self@.len() implies (
            #[trigger] self@[x]).0 != (#[trigger] self@[y]).0 by {
                if y < old_model.len() {
                    assert(old_model[x].0 != old_model[y].0);
                } else {
                    assert(self@[y].0 == h);
                    assert(old_model[x].0 != h);
                }
            }
        }
    }

    /// Every cached entry with its key, in storage order: the image a
    /// durable store writes out.
    pub fn entries(&self) -> (r: Vec<(u64, CacheEntry)>)
        ensures
            r@.map_values(|e: (u64, CacheEntry)| (e.0, e.1@)) == self@,
    {
        let mut r: Vec<(u64, CacheEntry)> = Vec::new();
        let mut i: usize = 0;
        while i < self.entries.len()
            invariant
                i <= self.entries@.len(),
                self@.len() == self.entries@.len(),
                r@.map_values(|e: (u64, CacheEntry)| (e.0, e.1@)) =~= self@.take(i as int),
            decreases self.entries@.len() - i,
        {
            let ghost pre = r@.map_values(|e: (u64, CacheEntry)| (e.0, e.1@));
            let h = self.entries[i].0;
            let created = self.entries[i].1.created_at;
            let content = self.entries[i].1.content.clone();
            let e2 = CacheEntry { created_at: created, content };
            let ghost ev = (h, e2@);
            r.push((h, e2));
            proof {
                assert(r@.map_values(|e: (u64, CacheEntry)| (e.0, e.1@)) =~= pre.push(ev));
                assert(ev == self@[i as int]);
                assert(self@.take(i + 1) =~= self@.take(i as int).push(self@[i as int]));
            }
            i = i + 1;
        }
        proof {
            assert(self@.take(self@.len() as int) =~= self@);
        }
        r
    }

    /// Restore one persisted entry under its stored key, overwriting any
    /// entry already there.
    pub fn restore_entry(&mut self, key: u64, entry: CacheEntry)
        requires
            old(self).wf(),
        ensures
            final(self).wf(),
            !(exists|i: int| 0 <= i < old(self)@.len() && (#[trigger] old(self)@[i]).0 == key)
                ==> final(self)@ == old(self)@.push((key, entry@)),
            (exists|i: int| 0 <= i < old(self)@.len() && (#[trigger] old(self)@[i]).0 == key)
                ==> exists|j: int|
                0 <= j < old(self)@.len() && (#[trigger] old(self)@[j]).0 == key && final(self)@
                    == old(self)@.update(j, (key, entry@)),
    {
        let ghost old_model = self@;
        let ghost ev = (key, entry@);
        let mut i: usize = 0;
        while i < self.entries.len()
            invariant
                old_model == old(self)@,
                self@ == old_model,
                self.wf(),
                ev == (key, entry@),
                i <= self.entries@.len(),
                self@.len() == self.entries@.len(),
                forall|k: int| 0 <= k < i ==> (#[trigger] self@[k]).0 != key,
            decreases self.entries@.len() - i,
        {
            if self.entries[i].0 == key {
                proof {
                    assert((#[trigger] old_model[i as int]).0 == key);
                }
                self.entries.set(i, (key, entry));
                proof {
                    assert(self@ =~= old_model.update(i as int, ev));
                    assert forall|x: int, y: int| 0 <= x < y < self@.len() implies (
                    #[trigger] self@[x]).0 != (#[trigger] self@[y]).0 by {
                        assert(old_model[x].0 != old_model[y].0);
                    }
                }
                return ;
            }
            i = i + 1;
        }
        self.entries.push((key, entry));
        proof {
            assert(self@ =~= old_model.push(ev));
            assert forall|x: int, y: int| 0 <= x < y < self@.len() implies (
            #[trigger] self@[x]).0 != (#[trigger] self@[y]).0 by {
                if y < old_model.len() {
                    assert(old_model[x].0 != old_model[y].0);
                } else {
                    assert(self@[y].0 == key);
                    assert(old_model[x].0 != key);
                }
            }
        }
    }

    /// Sweep out entries older than the retention window; returns how many
    /// were deleted.
    pub fn gc_at(&mut self, now: u64) -> (count: usize)
        requires
            old(self).wf(),
        ensures
            final(self).wf(),
            final(self)@ == retained_entries(old(self)@, now),
            count == old(self)@.len() - final(self)@.len(),
    {
        let ghost old_model = self@;
        let mut kept: Vec<(u64, CacheEntry)> = Vec::new();
        let mut i: usize = 0;
        while i < self.entries.len()
            invariant
                old_model == old(self)@,
                self@ == old_model,
                i <= self.entries@.len(),
                self@.len() == self.entries@.len(),
                kept@.map_values(|e: (u64, CacheEntry)| (e.0, e.1@)) == retained_entries(
                    self@.take(i as int),
                    now,
                ),
                kept@.len() <= i,
            decreases self.entries@.len() - i,
        {
            proof {
                lemma_cache_filter_take_step(
                    self@,
                    i as int,
                    |e: (u64, CacheEntryV)| entry_retained(e, now),
                );
            }
            let created = self.entries[i].1.created_at;
            let live = if CACHE_TTL_SECS <= u64::MAX - created {
                now <= created + CACHE_TTL_SECS
            } else {
                true
            };
            if live {
                let h = self.entries[i].0;
                let content = self.entries[i].1.content.clone();
                kept.push((h, CacheEntry { created_at: created, content }));
            }
            proof {
                assert(kept@.map_values(|e: (u64, CacheEntry)| (e.0, e.1@)) =~= retained_entries(
                    self@.take(i + 1),
                    now,
                ));
            }
            i = i + 1;
        }
        proof {
            assert(self@.take(self@.len() as int) =~= self@);
        }
        let removed = self.entries.len() - kept.len();
        proof {
            old_model.lemma_filter_len(|e: (u64, CacheEntryV)| entry_retained(e, now));
            lemma_cache_filter_unique_preserved(
                old_model,
                |e: (u64, CacheEntryV)| entry_retained(e, now),
            );
        }
        self.entries = kept;
        removed
    }
}

/// The end marker of the collaborator's reasoning prefix.
pub open spec fn reasoning_marker() -> Seq<char> {
    seq!['<', '/', 't', 'h', 'i', 'n', 'k', '>']
}

/// Scrub a reply of its reasoning prefix: everything up to and including
/// the first end marker is stripped and returned separately for auditing;
/// the remainder, trimmed, is the reply proper.  A reply without the
/// marker passes through unchanged.
pub fn strip_reasoning(response: &str) -> (r: (String, Option<String>))
    ensures
        (exists|k: int| match_at(response@, reasoning_marker(), k)) ==> exists|i: int|
            match_at(response@, reasoning_marker(), i) && (forall|k: int|
                0 <= k < i ==> !match_at(response@, reasoning_marker(), k)) && r.0@ == trim_of(
                response@.skip(i + 8),
            ) && r.1 == Some(r.1->0) && r.1->0@ == response@.take(i + 8),
        !(exists|k: int| match_at(response@, reasoning_marker(), k)) ==> r.0@ == response@ && r.1
            is None,
{
    let chars = chars_vec(response);
    let mut marker: Vec<char> = Vec::new();
    marker.push('<');
    marker.push('/');
    marker.push('t');
    marker.push('h');
    marker.push('i');
    marker.push('n');
    marker.push('k');
    marker.push('>');
    proof {
        assert(marker@ =~= reasoning_marker());
    }
    match find_first(chars.as_slice(), marker.as_slice()) {
        Some(i) => {
            let n = chars.len();
            proof {
                assert(i + 8 <= n);
            }
            let rest = vstd::slice::slice_subrange(chars.as_slice(), i + 8, n);
            let clean = trim_chars_slice(rest);
            let audit = vstd::slice::slice_subrange(chars.as_slice(), 0, i + 8);
            proof {
                assert(rest@ =~= response@.skip(i + 8));
                assert(audit@ =~= response@.take(i + 8));
            }
            (string_from_chars(clean.as_slice()), Some(string_from_chars(audit)))
        },
        None => (String::from_str(response), None),
    }
}

/// The trimmed characters of a slice.
fn trim_chars_slice(chars: &[char]) -> (r: Vec<char>)
    ensures
        r@ == trim_of(chars@),
{
    let (a, b) = crate::textproc::trim_bounds(chars);
    let mut r: Vec<char> = Vec::new();
    let mut i: usize = a;
    while i < b
        invariant
            a <= i <= b <= chars@.len(),
            r@ =~= chars@.subrange(a as int, i as int),
        decreases b - i,
    {
        r.push(chars[i]);
        i = i + 1;
    }
    proof {
        assert(r@ =~= chars@.subrange(a as int, b as int));
    }
    r
}

/// Filtering a prefix one entry further appends that entry exactly when it
/// satisfies the predicate.
proof fn lemma_cache_filter_take_step(
    s: Seq<(u64, CacheEntryV)>,
    i: int,
    pred: spec_fn((u64, CacheEntryV)) -> bool,
)
    requires
        0 <= i < s.len(),
    ensures
        pred(s[i]) ==> s.take(i + 1).filter(pred) == s.take(i).filter(pred).push(s[i]),
        !pred(s[i]) ==> s.take(i + 1).filter(pred) == s.take(i).filter(pred),
{
    reveal(Seq::filter);
    assert(s.take(i + 1).drop_last() =~= s.take(i));
    assert(s.take(i + 1).last() == s[i]);
}

/// Every filter output occurs among the inputs.
proof fn lemma_cache_filter_element_from(
    s: Seq<(u64, CacheEntryV)>,
    pred: spec_fn((u64, CacheEntryV)) -> bool,
    i: int,
)
    requires
        0 <= i < s.filter(pred).len(),
    ensures
        exists|x: int| 0 <= x < s.len() && s[x] == s.filter(pred)[i],
    decreases s.len(),
{
    reveal(Seq::filter);
    if s.len() > 0 {
        let fd = s.drop_last().filter(pred);
        if i < fd.len() {
            lemma_cache_filter_element_from(s.drop_last(), pred, i);
            let x = choose|x: int| 0 <= x < s.drop_last().len() && s.drop_last()[x] == fd[i];
            assert(s[x] == s.filter(pred)[i]);
        } else {
            assert(s[s.len() - 1] == s.filter(pred)[i]);
        }
    }
}

/// Filtering never introduces a duplicate key.
proof fn lemma_cache_filter_unique_preserved(
    s: Seq<(u64, CacheEntryV)>,
    pred: spec_fn((u64, CacheEntryV)) -> bool,
)
    requires
        unique_cache_keys(s),
    ensures
        unique_cache_keys(s.filter(pred)),
    decreases s.len(),
{
    reveal(Seq::filter);
    if s.len() > 0 {
        let d = s.drop_last();
        assert(unique_cache_keys(d)) by {
            assert(forall|i: int| 0 <= i < d.len() ==> d[i] == #[trigger] s[i]);
        }
        lemma_cache_filter_unique_preserved(d, pred);
        let fd = d.filter(pred);
        if pred(s.last()) {
            let f = s.filter(pred);
            assert(f == fd.push(s.last()));
            assert forall|i: int, j: int| 0 <= i < j < f.len() implies (#[trigger] f[i]).0 != (
            #[trigger] f[j]).0 by {
                if j < fd.len() {
                    assert(f[i] == fd[i] && f[j] == fd[j]);
                } else {
                    assert(f[j] == s.last());
                    lemma_cache_filter_element_from(d, pred, i);
                    let x = choose|x: int| 0 <= x < d.len() && d[x] == fd[i];
                    assert(s[x] == f[i]);
                    assert(s[x].0 != s[s.len() - 1].0);
                }
            }
        }
    }
}

} // verus!
