//! Cross-cycle topic registry: a persistent duplicate / follow-up detector.
//!
//! Topics that were broadcast are recorded under the fingerprint of their
//! text; a later cycle can ask whether a candidate text resurfaces one of
//! them.  Records expire after a fixed retention window.  This registry is
//! deliberately separate from the cluster buffer: it must survive across
//! flush cycles, a different concern from intra-cycle merge detection.
use vstd::prelude::*;
use vstd::string::*;
use crate::fingerprint::{
    simhash_str, simhash_of, hamming, hamming_of, duplicate_threshold, spec_duplicate_threshold,
};
use crate::external::now_unix_secs;

verus! {

/// Retention window for recorded topics, in seconds (72 hours).
pub const TOPIC_TTL_SECS: u64 = 259200;

/// Stored topic information for follow-up story detection.
pub struct TopicRecord {
    pub title: String,
    pub summary: String,
    pub timestamp: u64,
}

/// Mathematical model of a topic record.
pub ghost struct RecordV {
    pub title: Seq<char>,
    pub summary: Seq<char>,
    pub timestamp: u64,
}

impl View for TopicRecord {
    type V = RecordV;

    open spec fn view(&self) -> RecordV {
        RecordV { title: self.title@, summary: self.summary@, timestamp: self.timestamp }
    }
}

impl Clone for TopicRecord {
    fn clone(&self) -> (r: Self)
        ensures
            r == *self,
    {
        TopicRecord {
            title: self.title.clone(),
            summary: self.summary.clone(),
            timestamp: self.timestamp,
        }
    }
}

/// Whether a stored entry is within duplicate distance of a probe
/// fingerprint under the given threshold.
pub open spec fn entry_matches(e: (u64, RecordV), h: u64, threshold: u32) -> bool {
    hamming_of(h, e.0) < threshold
}

/// A record is live at `now` when its age does not exceed the retention
/// window.
pub open spec fn record_live(e: (u64, RecordV), now: u64) -> bool {
    now <= e.1.timestamp + TOPIC_TTL_SECS
}

/// What pruning at `now` keeps.
pub open spec fn live_records(s: Seq<(u64, RecordV)>, now: u64) -> Seq<(u64, RecordV)> {
    s.filter(|e: (u64, RecordV)| record_live(e, now))
}

/// Whether some entry is stored under the given fingerprint key.
pub open spec fn has_hash(s: Seq<(u64, RecordV)>, h: u64) -> bool {
    exists|i: int| 0 <= i < s.len() && (#[trigger] s[i]).0 == h
}

/// Pairwise distinctness of stored fingerprint keys.
pub open spec fn unique_hashes(s: Seq<(u64, RecordV)>) -> bool {
    forall|i: int, j: int| 0 <= i < j < s.len() ==> (#[trigger] s[i]).0 != (#[trigger] s[j]).0
}

/// The registry after an upsert of the given text at time `now`: either a
/// new entry was appended, or the entry with the text's fingerprint was
/// overwritten in place.
pub open spec fn upserted(
    before: Seq<(u64, RecordV)>,
    after: Seq<(u64, RecordV)>,
    text: Seq<char>,
    title: Seq<char>,
    summary: Seq<char>,
    now: u64,
) -> bool {
    let h = simhash_of(text) as u64;
    let entry = (h, RecordV { title: title, summary: summary, timestamp: now });
    (!has_hash(before, h) && after == before.push(entry)) || (has_hash(before, h) && exists|j: int|
        0 <= j < before.len() && (#[trigger] before[j]).0 == h && after == before.update(j, entry))
}

/// The duplicate / follow-up registry.
pub struct TopicRegistry {
    records: Vec<(u64, TopicRecord)>,
}

impl View for TopicRegistry {
    type V = Seq<(u64, RecordV)>;

    closed spec fn view(&self) -> Seq<(u64, RecordV)> {
        self.records@.map_values(|e: (u64, TopicRecord)| (e.0, e.1@))
    }
}

impl TopicRegistry {
    /// Keys are never stored twice.
    pub open spec fn wf(&self) -> bool {
        unique_hashes(self@)
    }

    /// An empty registry.
    pub fn new() -> (r: Self)
        ensures
            r@ =~= Seq::<(u64, RecordV)>::empty(),
            r.wf(),
    {
        TopicRegistry { records: Vec::new() }
    }

    /// Scan for a previously recorded topic within duplicate distance of
    /// the text's fingerprint; the threshold is tighter for short texts.
    /// Returns the first match in storage order.
    pub fn is_duplicate(&self, text: &str) -> (r: Option<TopicRecord>)
        ensures
            ({
                let h = simhash_of(text@) as u64;
                let thr = spec_duplicate_threshold(text@.len());
                match r {
                    None => forall|k: int|
                        0 <= k < self@.len() ==> !entry_matches(#[trigger] self@[k], h, thr),
                    Some(rec) => exists|i: int|
                        0 <= i < self@.len() && entry_matches(#[trigger] self@[i], h, thr) && rec@
                            == self@[i].1 && forall|k: int|
                            0 <= k < i ==> !entry_matches(#[trigger] self@[k], h, thr),
                }
            }),
    {
        let h = simhash_str(text);
        let thr = duplicate_threshold(text.unicode_len());
        let mut i: usize = 0;
        while i < self.records.len()
            invariant
                h == simhash_of(text@) as u64,
                thr == spec_duplicate_threshold(text@.len()),
                i <= self.records@.len(),
                self@.len() == self.records@.len(),
                forall|k: int| 0 <= k < i ==> !entry_matches(#[trigger] self@[k], h, thr),
            decreases self.records@.len() - i,
        {
            let d = hamming(h, self.records[i].0);
            if d < thr {
                proof {
                    assert(entry_matches(self@[i as int], h, thr));
                }
                return Some(self.records[i].1.clone());
            }
            i = i + 1;
        }
        None
    }

    /// Upsert a record for the text's fingerprint with the given title,
    /// summary and time.
    pub fn record_topic_with_details_at(
        &mut self,
        text: &str,
        title: &str,
        summary: &str,
        now: u64,
    )
        requires
            old(self).wf(),
        ensures
            final(self).wf(),
            ({
                let h = simhash_of(text@) as u64;
                let entry = (
                    h,
                    RecordV { title: title@, summary: summary@, timestamp: now },
                );
                &&& !has_hash(old(self)@, h) ==> final(self)@ == old(self)@.push(entry)
                &&& has_hash(old(self)@, h) ==> exists|j: int|
                    0 <= j < old(self)@.len() && (#[trigger] old(self)@[j]).0 == h
                        && final(self)@ == old(self)@.update(j, entry)
            }),
    {
        let h = simhash_str(text);
        let rec = TopicRecord {
            title: String::from_str(title),
            summary: String::from_str(summary),
            timestamp: now,
        };
        let ghost old_model = self@;
        let ghost entry = (h, rec@);
        let mut i: usize = 0;
        while i < self.records.len()
            invariant
                old_model == old(self)@,
                self@ == old_model,
                self.wf(),
                h == simhash_of(text@) as u64,
                entry == (h, RecordV { title: title@, summary: summary@, timestamp: now }),
                rec@ == entry.1,
                i <= self.records@.len(),
                self@.len() == self.records@.len(),
                forall|k: int| 0 <= k < i ==> (#[trigger] self@[k]).0 != h,
            decreases self.records@.len() - i,
        {
            if self.records[i].0 == h {
                proof {
                    assert((#[trigger] old_model[i as int]).0 == h);
                }
                self.records.set(i, (h, rec));
                proof {
                    assert(self@ =~= old_model.update(i as int, entry));
                    assert forall|x: int, y: int| 0 <= x < y < self@.len() implies (
                    #[trigger] self@[x]).0 != (#[trigger] self@[y]).0 by {
                        assert(old_model[x].0 != old_model[y].0);
                    }
                }
                return ;
            }
            i = i + 1;
        }
        self.records.push((h, rec));
        proof {
            assert(self@ =~= old_model.push(entry));
            assert forall|x: int, y: int| 0 <= x < y < self@.len() implies (
            #[trigger] self@[x]).0 != (#[trigger] self@[y]).0 by {
                if y < old_model.len() {
                    assert(old_model[x].0 != old_model[y].0);
                } else {
                    assert(self@[y].0 == h);
                    assert(old_model[x].0 != h);
                }
            }
        }
    }

    /// Upsert a record with title and summary at the current time.
    pub fn record_topic_with_details(&mut self, text: &str, title: &str, summary: &str)
        requires
            old(self).wf(),
        ensures
            final(self).wf(),
            exists|now: u64|
                #[trigger] upserted(old(self)@, final(self)@, text@, title@, summary@, now),
    {
        let now = now_unix_secs();
        self.record_topic_with_details_at(text, title, summary, now);
        proof {
            assert(upserted(old(self)@, self@, text@, title@, summary@, now));
        }
    }

    /// Upsert a bare record (no title or summary) at the current time.
    pub fn record_topic(&mut self, text: &str)
        requires
            old(self).wf(),
        ensures
            final(self).wf(),
            exists|now: u64|
                #[trigger] upserted(old(self)@, final(self)@, text@, ""@, ""@, now),
    {
        self.record_topic_with_details(text, "", "");
        proof {
            reveal_strlit("");
        }
    }

    /// Every record with its fingerprint key, in storage order: the image
    /// a durable store writes out.
    pub fn entries(&self) -> (r: Vec<(u64, TopicRecord)>)
        ensures
            r@.map_values(|e: (u64, TopicRecord)| (e.0, e.1@)) == self@,
    {
        let mut r: Vec<(u64, TopicRecord)> = Vec::new();
        let mut i: usize = 0;
        while i < self.records.len()
            invariant
                i <= self.records@.len(),
                self@.len() == self.records@.len(),
                r@.map_values(|e: (u64, TopicRecord)| (e.0, e.1@)) =~= self@.take(i as int),
            decreases self.records@.len() - i,
        {
            let ghost pre = r@.map_values(|e: (u64, TopicRecord)| (e.0, e.1@));
            let h = self.records[i].0;
            let rec = self.records[i].1.clone();
            let ghost ev = (h, rec@);
            r.push((h, rec));
            proof {
                assert(r@.map_values(|e: (u64, TopicRecord)| (e.0, e.1@)) =~= pre.push(ev));
                assert(ev == self@[i as int]);
                assert(self@.take(i + 1) =~= self@.take(i as int).push(self@[i as int]));
            }
            i = i + 1;
        }
        proof {
            assert(self@.take(self@.len() as int) =~= self@);
        }
        r
    }

    /// Restore one persisted record under its stored fingerprint key,
    /// overwriting any entry already there.
    pub fn restore_entry(&mut self, hash: u64, record: TopicRecord)
        requires
            old(self).wf(),
        ensures
            final(self).wf(),
            !has_hash(old(self)@, hash) ==> final(self)@ == old(self)@.push((hash, record@)),
            has_hash(old(self)@, hash) ==> exists|j: int|
                0 <= j < old(self)@.len() && (#[trigger] old(self)@[j]).0 == hash
                    && final(self)@ == old(self)@.update(j, (hash, record@)),
    {
        let ghost old_model = self@;
        let ghost entry = (hash, record@);
        let mut i: usize = 0;
        while i < self.records.len()
            invariant
                old_model == old(self)@,
                self@ == old_model,
                self.wf(),
                entry == (hash, record@),
                i <= self.records@.len(),
                self@.len() == self.records@.len(),
                forall|k: int| 0 <= k < i ==> (#[trigger] self@[k]).0 != hash,
            decreases self.records@.len() - i,
        {
            if self.records[i].0 == hash {
                proof {
                    assert((#[trigger] old_model[i as int]).0 == hash);
                }
                self.records.set(i, (hash, record));
                proof {
                    assert(self@ =~= old_model.update(i as int, entry));
                    assert forall|x: int, y: int| 0 <= x < y < self@.len() implies (
                    #[trigger] self@[x]).0 != (#[trigger] self@[y]).0 by {
                        assert(old_model[x].0 != old_model[y].0);
                    }
                }
                return ;
            }
            i = i + 1;
        }
        self.records.push((hash, record));
        proof {
            assert(self@ =~= old_model.push(entry));
            assert forall|x: int, y: int| 0 <= x < y < self@.len() implies (
            #[trigger] self@[x]).0 != (#[trigger] self@[y]).0 by {
                if y < old_model.len() {
                    assert(old_model[x].0 != old_model[y].0);
                } else {
                    assert(self@[y].0 == hash);
                    assert(old_model[x].0 != hash);
                }
            }
        }
    }

    /// Drop records older than the retention window; returns how many were
    /// dropped.
    pub fn prune_at(&mut self, now: u64) -> (count: usize)
        requires
            old(self).wf(),
        ensures
            final(self).wf(),
            final(self)@ == live_records(old(self)@, now),
            count == old(self)@.len() - final(self)@.len(),
    {
        let ghost old_model = self@;
        let mut kept: Vec<(u64, TopicRecord)> = Vec::new();
        let mut i: usize = 0;
        while i < self.records.len()
            invariant
                old_model == old(self)@,
                self@ == old_model,
                i <= self.records@.len(),
                self@.len() == self.records@.len(),
                kept@.map_values(|e: (u64, TopicRecord)| (e.0, e.1@)) == live_records(
                    self@.take(i as int),
                    now,
                ),
                kept@.len() <= i,
            decreases self.records@.len() - i,
        {
            proof {
                lemma_records_filter_take_step(
                    self@,
                    i as int,
                    |e: (u64, RecordV)| record_live(e, now),
                );
            }
            let ts = self.records[i].1.timestamp;
            let live = if TOPIC_TTL_SECS <= u64::MAX - ts {
                now <= ts + TOPIC_TTL_SECS
            } else {
                true
            };
            if live {
                let h = self.records[i].0;
                let rec = self.records[i].1.clone();
                kept.push((h, rec));
            }
            proof {
                assert(kept@.map_values(|e: (u64, TopicRecord)| (e.0, e.1@)) =~= live_records(
                    self@.take(i + 1),
                    now,
                ));
            }
            i = i + 1;
        }
        proof {
            assert(self@.take(self@.len() as int) =~= self@);
        }
        let removed = self.records.len() - kept.len();
        proof {
            old_model.lemma_filter_len(|e: (u64, RecordV)| record_live(e, now));
            lemma_records_filter_unique_preserved(
                old_model,
                |e: (u64, RecordV)| record_live(e, now),
            );
        }
        self.records = kept;
        removed
    }

    /// Drop records older than the retention window, judged by the clock.
    pub fn prune(&mut self) -> (count: usize)
        requires
            old(self).wf(),
        ensures
            final(self).wf(),
            exists|now: u64|
                final(self)@ == #[trigger] live_records(old(self)@, now) && count == old(self)@.len()
                    - final(self)@.len(),
    {
        let now = now_unix_secs();
        self.prune_at(now)
    }
}

/// A record younger than the retention window survives a prune.
pub proof fn lemma_prune_retains_fresh(s: Seq<(u64, RecordV)>, now: u64, i: int)
    requires
        0 <= i < s.len(),
        now <= s[i].1.timestamp + TOPIC_TTL_SECS,
    ensures
        live_records(s, now).contains(s[i]),
{
    broadcast use vstd::seq_lib::group_filter_ensures;

    assert(record_live(s[i], now));
}

/// When every record is past the retention window, a prune empties the
/// registry.
pub proof fn lemma_prune_removes_stale(s: Seq<(u64, RecordV)>, now: u64)
    requires
        forall|i: int| 0 <= i < s.len() ==> now > (#[trigger] s[i]).1.timestamp + TOPIC_TTL_SECS,
    ensures
        live_records(s, now) =~= Seq::<(u64, RecordV)>::empty(),
    decreases s.len(),
{
    reveal(Seq::filter);
    if s.len() > 0 {
        assert(forall|i: int|
            0 <= i < s.drop_last().len() ==> now > (#[trigger] s.drop_last()[i]).1.timestamp
                + TOPIC_TTL_SECS) by {
            assert(forall|i: int|
                0 <= i < s.drop_last().len() ==> s.drop_last()[i] == #[trigger] s[i]);
        }
        lemma_prune_removes_stale(s.drop_last(), now);
    }
}

/// Filtering a prefix one entry further appends that entry exactly when it
/// satisfies the predicate.
proof fn lemma_records_filter_take_step(
    s: Seq<(u64, RecordV)>,
    i: int,
    pred: spec_fn((u64, RecordV)) -> bool,
)
    requires
        0 <= i < s.len(),
    ensures
        pred(s[i]) ==> s.take(i + 1).filter(pred) == s.take(i).filter(pred).push(s[i]),
        !pred(s[i]) ==> s.take(i + 1).filter(pred) == s.take(i).filter(pred),
{
    reveal(Seq::filter);
    assert(s.take(i + 1).drop_last() =~= s.take(i));
    assert(s.take(i + 1).last() == s[i]);
}

/// Every filter output occurs among the inputs.
proof fn lemma_records_filter_element_from(
    s: Seq<(u64, RecordV)>,
    pred: spec_fn((u64, RecordV)) -> bool,
    i: int,
)
    requires
        0 <= i < s.filter(pred).len(),
    ensures
        exists|x: int| 0 <= x < s.len() && s[x] == s.filter(pred)[i],
    decreases s.len(),
{
    reveal(Seq::filter);
    if s.len() > 0 {
        let fd = s.drop_last().filter(pred);
        if i < fd.len() {
            lemma_records_filter_element_from(s.drop_last(), pred, i);
            let x = choose|x: int| 0 <= x < s.drop_last().len() && s.drop_last()[x] == fd[i];
            assert(s[x] == s.filter(pred)[i]);
        } else {
            assert(s[s.len() - 1] == s.filter(pred)[i]);
        }
    }
}

/// Filtering never introduces a duplicate key.
proof fn lemma_records_filter_unique_preserved(
    s: Seq<(u64, RecordV)>,
    pred: spec_fn((u64, RecordV)) -> bool,
)
    requires
        unique_hashes(s),
    ensures
        unique_hashes(s.filter(pred)),
    decreases s.len(),
{
    reveal(Seq::filter);
    if s.len() > 0 {
        let d = s.drop_last();
        assert(unique_hashes(d)) by {
            assert(forall|i: int| 0 <= i < d.len() ==> d[i] == #[trigger] s[i]);
        }
        lemma_records_filter_unique_preserved(d, pred);
        let fd = d.filter(pred);
        if pred(s.last()) {
            let f = s.filter(pred);
            assert(f == fd.push(s.last()));
            assert forall|i: int, j: int| 0 <= i < j < f.len() implies (#[trigger] f[i]).0 != (
            #[trigger] f[j]).0 by {
                if j < fd.len() {
                    assert(f[i] == fd[i] && f[j] == fd[j]);
                } else {
                    assert(f[j] == s.last());
                    lemma_records_filter_element_from(d, pred, i);
                    let x = choose|x: int| 0 <= x < d.len() && d[x] == fd[i];
                    assert(s[x] == f[i]);
                    assert(s[x].0 != s[s.len() - 1].0);
                }
            }
        }
    }
}

} // verus!
