//! The flush scheduler and the cluster-to-episode triage.
//!
//! Once per cycle the per-category statistics decide which categories
//! flush: enough unique clusters, or buffered for too long.  A flushed
//! category's clusters are then triaged against the topic registry: a
//! topic already broadcast is either discarded (nothing substantially
//! new) or included as a flagged follow-up; an unseen topic is included
//! as new and registered.  Fewer than three surviving topics postpone the
//! whole category with nothing removed; removal of the flushed clusters
//! happens only as acknowledgment after confirmed delivery, through the
//! buffer itself.
use vstd::prelude::*;
use vstd::string::*;
use crate::buffer::CategoryStat;
use crate::cluster::{ClusterData, ClusterV, ItemV};
use crate::registry::{TopicRecord, TopicRegistry, entry_matches, upserted};
use crate::fingerprint::{simhash_of, spec_duplicate_threshold};
use crate::payload::{SourceInfo, SourceV};

verus! {

/// A category flushes at this many buffered clusters.
pub const MIN_CLUSTERS: usize = 10;

/// A category flushes when its oldest cluster has waited this long.
pub const MAX_WAIT_SECS: u64 = 21600;

/// A flushed category with fewer clusters than this is postponed.
pub const MIN_CLUSTERS_FOR_EPISODE: usize = 3;

/// An episode needs at least this many surviving unique topics.
pub const MIN_UNIQUE_TOPICS: usize = 3;

/// A category flushes when it has enough clusters or its oldest cluster
/// has waited longer than the limit.
pub open spec fn spec_should_flush(count: nat, oldest: u64, now: u64) -> bool {
    count >= MIN_CLUSTERS || (now > oldest && now - oldest > MAX_WAIT_SECS)
}

/// Whether a category's statistics trigger a flush now.
pub fn should_flush(count: usize, oldest: u64, now: u64) -> (r: bool)
    ensures
        r == spec_should_flush(count as nat, oldest, now),
{
    if count >= MIN_CLUSTERS {
        true
    } else {
        now > oldest && now - oldest > MAX_WAIT_SECS
    }
}

/// Nine clusters all younger than the wait limit never flush; a tenth
/// cluster flushes the category whatever its age.
pub proof fn lemma_flush_threshold(count: nat, oldest: u64, now: u64)
    ensures
        count < MIN_CLUSTERS && now <= oldest + MAX_WAIT_SECS ==> !spec_should_flush(
            count,
            oldest,
            now,
        ),
        count >= MIN_CLUSTERS ==> spec_should_flush(count, oldest, now),
{
}

/// Whether an ingest cycle runs now: the first tick after startup always
/// runs; with scheduled times, only at a listed time that has not run yet
/// today; without a schedule, every tick.
pub open spec fn spec_should_run_cycle(
    first_run: bool,
    schedule: Option<Seq<Seq<char>>>,
    current_time: Seq<char>,
    current_date: Seq<char>,
    last_run_date: Seq<char>,
) -> bool {
    if first_run {
        true
    } else {
        match schedule {
            Some(times) => (exists|i: int| 0 <= i < times.len() && times[i] == current_time)
                && last_run_date != current_date,
            None => true,
        }
    }
}

/// Decide whether this tick runs an ingest cycle.
pub fn should_run_cycle(
    first_run: bool,
    schedule: &Option<Vec<String>>,
    current_time: &str,
    current_date: &str,
    last_run_date: &str,
) -> (r: bool)
    ensures
        ({
            let sched = match schedule {
                Some(times) => Some(times@.map_values(|t: String| t@)),
                None => None,
            };
            r == spec_should_run_cycle(
                first_run,
                sched,
                current_time@,
                current_date@,
                last_run_date@,
            )
        }),
{
    if first_run {
        return true;
    }
    match schedule {
        Some(times) => {
            let ghost tv = times@.map_values(|t: String| t@);
            let ct = String::from_str(current_time);
            let mut listed = false;
            let mut i: usize = 0;
            while i < times.len() && !listed
                invariant
                    tv == times@.map_values(|t: String| t@),
                    ct@ == current_time@,
                    i <= times@.len(),
                    listed ==> exists|k: int| 0 <= k < tv.len() && tv[k] == current_time@,
                    !listed ==> forall|k: int| 0 <= k < i ==> tv[k] != current_time@,
                decreases times@.len() - i + if listed {
                    0int
                } else {
                    1int
                },
            {
                if times[i] == ct {
                    proof {
                        assert(tv[i as int] == current_time@);
                    }
                    listed = true;
                } else {
                    i = i + 1;
                }
            }
            if !listed {
                return false;
            }
            let cd = String::from_str(current_date);
            let ld = String::from_str(last_run_date);
            !(ld == cd)
        },
        None => true,
    }
}

/// The statistics entries that trigger a flush now, in order.
pub open spec fn flushable(stats: Seq<CategoryStat>, now: u64) -> Seq<CategoryStat> {
    stats.filter(|st: CategoryStat| spec_should_flush(st.count as nat, st.oldest, now))
}

/// The categories to flush this cycle, in statistics order.
pub fn flush_candidates(stats: &Vec<CategoryStat>, now: u64) -> (r: Vec<String>)
    ensures
        r@.map_values(|s: String| s@) == flushable(stats@, now).map_values(
            |st: CategoryStat| st.category@,
        ),
{
    let mut r: Vec<String> = Vec::new();
    let mut i: usize = 0;
    while i < stats.len()
        invariant
            i <= stats@.len(),
            r@.map_values(|s: String| s@) == flushable(stats@.take(i as int), now).map_values(
                |st: CategoryStat| st.category@,
            ),
        decreases stats@.len() - i,
    {
        proof {
            lemma_stats_filter_take_step(
                stats@,
                i as int,
                |st: CategoryStat| spec_should_flush(st.count as nat, st.oldest, now),
            );
        }
        let ghost pre = r@.map_values(|s: String| s@);
        let st = &stats[i];
        let fl = should_flush(st.count, st.oldest, now);
        if fl {
            r.push(st.category.clone());
        }
        proof {
            if fl {
                assert(flushable(stats@.take(i + 1), now) == flushable(
                    stats@.take(i as int),
                    now,
                ).push(stats@[i as int]));
                assert(r@.map_values(|s: String| s@) =~= pre.push(stats@[i as int].category@));
                assert(flushable(stats@.take(i + 1), now).map_values(
                    |st: CategoryStat| st.category@,
                ) =~= pre.push(stats@[i as int].category@));
            } else {
                assert(flushable(stats@.take(i + 1), now) == flushable(
                    stats@.take(i as int),
                    now,
                ));
            }
        }
        i = i + 1;
    }
    proof {
        assert(stats@.take(stats@.len() as int) =~= stats@);
    }
    r
}

/// Filtering a prefix one entry further appends that entry exactly when it
/// satisfies the predicate.
proof fn lemma_stats_filter_take_step(
    s: Seq<CategoryStat>,
    i: int,
    pred: spec_fn(CategoryStat) -> bool,
)
    requires
        0 <= i < s.len(),
    ensures
        pred(s[i]) ==> s.take(i + 1).filter(pred) == s.take(i).filter(pred).push(s[i]),
        !pred(s[i]) ==> s.take(i + 1).filter(pred) == s.take(i).filter(pred),
{
    reveal(Seq::filter);
    assert(s.take(i + 1).drop_last() =~= s.take(i));
    assert(s.take(i + 1).last() == s[i]);
}

/// The text a cluster is registered and deduplicated under: its summary is
/// the merged one when a merge produced it, else the main description.
pub open spec fn summary_of(c: ClusterV) -> Seq<char> {
    match c.merged_summary {
        Some(s) => s,
        None => c.main_item.description,
    }
}

/// Title and summary joined by a space: the registry key text.
pub open spec fn combined_text(c: ClusterV) -> Seq<char> {
    c.main_item.title + seq![' '] + summary_of(c)
}

/// The label a cluster's source appears under.
pub open spec fn source_label(c: ClusterV) -> Seq<char> {
    match c.main_item.source_name {
        Some(s) => s,
        None => "Unknown"@,
    }
}

/// One story of an episode in the making.
pub struct BroadcastItem {
    pub id: usize,
    pub title: String,
    pub summary: String,
    pub source_name: String,
    pub original_url: String,
    pub is_update: bool,
}

/// Mathematical model of a broadcast story.
pub ghost struct BItemV {
    pub id: usize,
    pub title: Seq<char>,
    pub summary: Seq<char>,
    pub source_name: Seq<char>,
    pub original_url: Seq<char>,
    pub is_update: bool,
}

impl View for BroadcastItem {
    type V = BItemV;

    open spec fn view(&self) -> BItemV {
        BItemV {
            id: self.id,
            title: self.title@,
            summary: self.summary@,
            source_name: self.source_name@,
            original_url: self.original_url@,
            is_update: self.is_update,
        }
    }
}

impl Clone for BroadcastItem {
    fn clone(&self) -> (r: Self)
        ensures
            r@ == self@,
            r == *self,
    {
        BroadcastItem {
            id: self.id,
            title: self.title.clone(),
            summary: self.summary.clone(),
            source_name: self.source_name.clone(),
            original_url: self.original_url.clone(),
            is_update: self.is_update,
        }
    }
}

/// The story a newly seen cluster contributes, numbered one-based.
pub open spec fn new_story_of(c: ClusterV, pos: int) -> BItemV {
    BItemV {
        id: (pos + 1) as usize,
        title: c.main_item.title,
        summary: summary_of(c),
        source_name: source_label(c),
        original_url: c.main_item.link,
        is_update: false,
    }
}

/// The story a follow-up cluster contributes: its title flagged as an
/// update, its summary the fresh information only.
pub open spec fn follow_up_story_of(c: ClusterV, pos: int, update: Seq<char>) -> BItemV {
    BItemV {
        id: (pos + 1) as usize,
        title: "[\u{66f4}\u{65b0}] "@ + c.main_item.title,
        summary: update,
        source_name: source_label(c),
        original_url: c.main_item.link,
        is_update: true,
    }
}

/// The source reference of a related item.
pub open spec fn related_source_of(it: ItemV) -> SourceV {
    SourceV { url: it.link, title: it.title, summary: it.description }
}

/// The summary text of a cluster, as a string.
fn summary_string(c: &ClusterData) -> (r: String)
    ensures
        r@ == summary_of(c@),
{
    match &c.merged_summary {
        Some(s) => s.clone(),
        None => c.main_item.description.clone(),
    }
}

/// The registry key text of a cluster, as a string.
fn combined_string(c: &ClusterData) -> (r: String)
    ensures
        r@ == combined_text(c@),
{
    let mut t = c.main_item.title.clone();
    t.append(" ");
    let s = summary_string(c);
    t.append(s.as_str());
    proof {
        reveal_strlit(" ");
        assert(t@ =~= combined_text(c@));
    }
    t
}

/// The source label of a cluster, as a string.
fn source_label_string(c: &ClusterData) -> (r: String)
    ensures
        r@ == source_label(c@),
{
    match &c.main_item.source_name {
        Some(s) => s.clone(),
        None => String::from_str("Unknown"),
    }
}

/// The source reference a newly included story carries.
pub open spec fn new_source_of(c: ClusterV) -> SourceV {
    SourceV { url: c.main_item.link, title: c.main_item.title, summary: summary_of(c) }
}

/// The source reference a follow-up story carries: the flagged title and
/// the fresh information only.
pub open spec fn follow_up_source_of(c: ClusterV, update: Seq<char>) -> SourceV {
    SourceV {
        url: c.main_item.link,
        title: "[\u{66f4}\u{65b0}] "@ + c.main_item.title,
        summary: update,
    }
}

/// The source references of a cluster's related items, in order.
pub open spec fn related_sources_of(c: ClusterV) -> Seq<SourceV> {
    c.related_items.map_values(|it: ItemV| related_source_of(it))
}

/// Triage of one flushed category, cluster by cluster.
pub struct TriageFlow {
    pub category: String,
    pub clusters: Vec<ClusterData>,
    pub idx: usize,
    pub items: Vec<BroadcastItem>,
    pub sources: Vec<SourceInfo>,
    pub included: Vec<String>,
}

impl TriageFlow {
    /// The stories included so far, as models.
    pub open spec fn stories(&self) -> Seq<BItemV> {
        self.items@.map_values(|b: BroadcastItem| b@)
    }

    /// The sources collected so far, as models.
    pub open spec fn srcs(&self) -> Seq<SourceV> {
        self.sources@.map_values(|s: SourceInfo| s@)
    }

    /// The identifiers of the clusters included so far: the only clusters
    /// acknowledgment may remove.
    pub open spec fn included_ids(&self) -> Seq<Seq<char>> {
        self.included@.map_values(|s: String| s@)
    }
}

/// Where a triage stands.
pub enum TriageStep {
    /// The topic of `clusters[index]` was broadcast before: ask the
    /// collaborator whether there is substantial new information, then
    /// call `on_update`.
    NeedUpdateCheck { index: usize, prev: TopicRecord },
    /// The cluster under triage was unseen: it was included as a new story
    /// and registered.  Call `advance` again.
    Included,
    /// Triage is done and enough unique topics survived: produce the
    /// episode from `items` and `sources`.
    Ready,
    /// Fewer than the minimum unique topics survived: postpone the whole
    /// category; nothing may be removed from the buffer.
    Postponed,
}

impl TriageFlow {
    /// Begin triaging a category's fetched clusters.  A category below the
    /// minimum cluster count is postponed outright (`None`), with no
    /// mutation anywhere.
    pub fn begin(category: &str, clusters: Vec<ClusterData>) -> (r: Option<TriageFlow>)
        ensures
            clusters@.len() < MIN_CLUSTERS_FOR_EPISODE <==> r is None,
            match r {
                Some(f) => f.category@ == category@ && f.clusters@ == clusters@ && f.idx == 0
                    && f.items@.len() == 0 && f.sources@.len() == 0 && f.included@.len() == 0,
                None => true,
            },
    {
        if clusters.len() < MIN_CLUSTERS_FOR_EPISODE {
            return None;
        }
        Some(
            TriageFlow {
                category: String::from_str(category),
                clusters,
                idx: 0,
                items: Vec::new(),
                sources: Vec::new(),
                included: Vec::new(),
            },
        )
    }

    /// Push the related items of a cluster as sources.
    fn push_related_sources(&mut self, i: usize)
        requires
            i < old(self).clusters@.len(),
        ensures
            final(self).clusters == old(self).clusters,
            final(self).category == old(self).category,
            final(self).idx == old(self).idx,
            final(self).items == old(self).items,
            final(self).included == old(self).included,
            final(self).srcs() == old(self).srcs() + related_sources_of(
                old(self).clusters@[i as int]@,
            ),
    {
        let ghost old_sources = self.sources@.map_values(|s: SourceInfo| s@);
        let ghost rel = self.clusters@[i as int]@.related_items;
        let n = self.clusters[i].related_items.len();
        let mut k: usize = 0;
        while k < n
            invariant
                i < self.clusters@.len(),
                self.clusters == old(self).clusters,
                self.category == old(self).category,
                self.idx == old(self).idx,
                self.items == old(self).items,
                self.included == old(self).included,
                n == self.clusters@[i as int].related_items@.len(),
                rel == self.clusters@[i as int]@.related_items,
                k <= n,
                rel.len() == n,
                self.sources@.map_values(|s: SourceInfo| s@) == old_sources + rel.map_values(
                    |it: ItemV| related_source_of(it),
                ).take(k as int),
            decreases n - k,
        {
            let it = &self.clusters[i].related_items[k];
            let src = SourceInfo {
                url: it.link.clone(),
                title: it.title.clone(),
                summary: it.description.clone(),
            };
            proof {
                assert(self.clusters@[i as int]@.related_items[k as int]
                    == self.clusters@[i as int].related_items@[k as int]@);
            }
            let ghost pre_srcs = self.sources@.map_values(|s: SourceInfo| s@);
            let ghost srcv = src@;
            self.sources.push(src);
            proof {
                assert(self.sources@.map_values(|s: SourceInfo| s@) =~= pre_srcs.push(srcv));
                assert(srcv == related_source_of(rel[k as int]));
                assert(rel.map_values(|it: ItemV| related_source_of(it)).take(k + 1)
                    =~= rel.map_values(|it: ItemV| related_source_of(it)).take(k as int).push(
                    related_source_of(rel[k as int]),
                ));
                assert(self.sources@.map_values(|s: SourceInfo| s@) =~= old_sources
                    + rel.map_values(|it: ItemV| related_source_of(it)).take(k + 1));
            }
            k = k + 1;
        }
        proof {
            assert(rel.map_values(|it: ItemV| related_source_of(it)).take(n as int) =~= rel.map_values(
                |it: ItemV| related_source_of(it),
            ));
        }
    }

    /// Triage the cluster at `idx`, one step per call.  A registry-unseen
    /// cluster is included as a new story, registered under its combined
    /// text, and its identifier joins the acknowledgment list; a previously
    /// broadcast topic asks for a collaborator update check instead.  Once
    /// every cluster is triaged, the unique-topic minimum decides between
    /// producing and postponing.
    pub fn advance(&mut self, registry: &mut TopicRegistry, now: u64) -> (r: TriageStep)
        requires
            old(registry).wf(),
            old(self).idx <= old(self).clusters@.len(),
        ensures
            final(registry).wf(),
            final(self).category == old(self).category,
            final(self).clusters == old(self).clusters,
            old(self).idx == old(self).clusters@.len() ==> final(self).idx == old(self).idx
                && final(self).stories() == old(self).stories() && final(self).srcs() == old(self).srcs() && final(self).included_ids() == old(self).included_ids() && final(registry)@
                == old(registry)@ && (r is Ready <==> old(self).stories().len()
                >= MIN_UNIQUE_TOPICS) && (r is Ready || r is Postponed),
            old(self).idx < old(self).clusters@.len() ==> ({
                let c = old(self).clusters@[old(self).idx as int]@;
                let h = simhash_of(combined_text(c)) as u64;
                let thr = spec_duplicate_threshold(combined_text(c).len());
                &&& (r is NeedUpdateCheck || r is Included)
                &&& (r matches TriageStep::NeedUpdateCheck { index, prev } ==> index == old(self).idx && final(self).idx == old(self).idx && final(self).stories() == old(self).stories() && final(self).srcs() == old(self).srcs() && final(self).included_ids() == old(self).included_ids() && final(registry)@ == old(registry)@
                    && exists|i: int|
                    0 <= i < old(registry)@.len() && entry_matches(#[trigger] old(registry)@[i], h, thr)
                        && prev@ == old(registry)@[i].1)
                &&& (r is Included ==> (forall|k: int|
                    0 <= k < old(registry)@.len() ==> !entry_matches(
                        #[trigger] old(registry)@[k],
                        h,
                        thr,
                    )) && upserted(
                    old(registry)@,
                    final(registry)@,
                    combined_text(c),
                    c.main_item.title,
                    summary_of(c),
                    now,
                ) && final(self).stories() == old(self).stories().push(
                    new_story_of(c, old(self).idx as int),
                ) && final(self).srcs() == old(self).srcs().push(new_source_of(c))
                    + related_sources_of(c) && final(self).included_ids() == old(self).included_ids().push(c.id) && final(self).idx == old(self).idx + 1)
            }),
    {
        let i = self.idx;
        let n = self.clusters.len();
        if i == n {
            if self.items.len() >= MIN_UNIQUE_TOPICS {
                return TriageStep::Ready;
            } else {
                return TriageStep::Postponed;
            }
        }
        let combined = combined_string(&self.clusters[i]);
        match registry.is_duplicate(combined.as_str()) {
            Some(prev) => TriageStep::NeedUpdateCheck { index: i, prev },
            None => {
                let summary = summary_string(&self.clusters[i]);
                registry.record_topic_with_details_at(
                    combined.as_str(),
                    self.clusters[i].main_item.title.as_str(),
                    summary.as_str(),
                    now,
                );
                let c = &self.clusters[i];
                let item = BroadcastItem {
                    id: i + 1,
                    title: c.main_item.title.clone(),
                    summary: summary,
                    source_name: source_label_string(c),
                    original_url: c.main_item.link.clone(),
                    is_update: false,
                };
                let src = SourceInfo {
                    url: c.main_item.link.clone(),
                    title: c.main_item.title.clone(),
                    summary: summary_string(c),
                };
                let id = c.id.clone();
                proof {
                    assert(item@ == new_story_of(self.clusters@[i as int]@, i as int));
                    assert(src@ == new_source_of(self.clusters@[i as int]@));
                }
                let ghost pre_stories = self.stories();
                self.items.push(item);
                proof {
                    assert(self.stories() =~= pre_stories.push(
                        new_story_of(self.clusters@[i as int]@, i as int),
                    ));
                }
                let ghost pre_srcs = self.srcs();
                self.sources.push(src);
                proof {
                    assert(self.srcs() =~= pre_srcs.push(
                        new_source_of(self.clusters@[i as int]@),
                    ));
                }
                self.push_related_sources(i);
                let ghost pre_included = self.included_ids();
                self.included.push(id);
                proof {
                    assert(self.included_ids() =~= pre_included.push(
                        self.clusters@[i as int]@.id,
                    ));
                }
                self.idx = i + 1;
                TriageStep::Included
            },
        }
    }

    /// Digest the update check for the cluster at `idx`: fresh information
    /// includes it as a flagged follow-up story, refreshes the registry and
    /// joins it to the acknowledgment list; nothing new discards it, and
    /// neither path touches the buffer.
    pub fn on_update(&mut self, registry: &mut TopicRegistry, now: u64, update: Option<String>)
        requires
            old(registry).wf(),
            old(self).idx < old(self).clusters@.len(),
        ensures
            final(registry).wf(),
            final(self).category == old(self).category,
            final(self).clusters == old(self).clusters,
            final(self).idx == old(self).idx + 1,
            ({
                let c = old(self).clusters@[old(self).idx as int]@;
                match update {
                    Some(u) => final(self).stories() == old(self).stories().push(
                        follow_up_story_of(c, old(self).idx as int, u@),
                    ) && final(self).srcs() == old(self).srcs().push(follow_up_source_of(c, u@))
                        + related_sources_of(c) && final(self).included_ids() == old(self).included_ids().push(c.id) && upserted(
                        old(registry)@,
                        final(registry)@,
                        combined_text(c),
                        c.main_item.title,
                        summary_of(c),
                        now,
                    ),
                    None => final(self).stories() == old(self).stories() && final(self).srcs()
                        == old(self).srcs() && final(self).included_ids() == old(self).included_ids() && final(registry)@ == old(registry)@,
                }
            }),
    {
        let i = self.idx;
        let n = self.clusters.len();
        proof {
            assert(i < n);
        }
        match update {
            Some(u) => {
                let combined = combined_string(&self.clusters[i]);
                let summary = summary_string(&self.clusters[i]);
                registry.record_topic_with_details_at(
                    combined.as_str(),
                    self.clusters[i].main_item.title.as_str(),
                    summary.as_str(),
                    now,
                );
                proof {
                    assert(upserted(
                        old(registry)@,
                        registry@,
                        combined_text(old(self).clusters@[i as int]@),
                        old(self).clusters@[i as int]@.main_item.title,
                        summary_of(old(self).clusters@[i as int]@),
                        now,
                    ));
                }
                let c = &self.clusters[i];
                let mut flagged = String::from_str("[\u{66f4}\u{65b0}] ");
                flagged.append(c.main_item.title.as_str());
                let item = BroadcastItem {
                    id: i + 1,
                    title: flagged,
                    summary: u.clone(),
                    source_name: source_label_string(c),
                    original_url: c.main_item.link.clone(),
                    is_update: true,
                };
                let mut flagged2 = String::from_str("[\u{66f4}\u{65b0}] ");
                flagged2.append(c.main_item.title.as_str());
                let src = SourceInfo {
                    url: c.main_item.link.clone(),
                    title: flagged2,
                    summary: u,
                };
                let id = c.id.clone();
                proof {
                    assert(item@ == follow_up_story_of(
                        self.clusters@[i as int]@,
                        i as int,
                        item@.summary,
                    ));
                    assert(src@ == follow_up_source_of(self.clusters@[i as int]@, item@.summary));
                }
                let ghost pre_stories = self.stories();
                self.items.push(item);
                proof {
                    assert(self.stories() =~= pre_stories.push(
                        follow_up_story_of(
                            self.clusters@[i as int]@,
                            i as int,
                            self.items@.last()@.summary,
                        ),
                    ));
                }
                let ghost pre_srcs = self.srcs();
                self.sources.push(src);
                proof {
                    assert(self.srcs() =~= pre_srcs.push(
                        follow_up_source_of(
                            self.clusters@[i as int]@,
                            self.items@.last()@.summary,
                        ),
                    ));
                }
                self.push_related_sources(i);
                let ghost pre_included = self.included_ids();
                self.included.push(id);
                proof {
                    assert(self.included_ids() =~= pre_included.push(
                        self.clusters@[i as int]@.id,
                    ));
                }
                self.idx = i + 1;
            },
            None => {
                self.idx = i + 1;
            },
        }
    }

    /// The identifiers of the included clusters, for acknowledgment after
    /// confirmed delivery.  Discarded clusters are not listed: they stay in
    /// the buffer.
    pub fn included_cluster_ids(&self) -> (r: Vec<String>)
        ensures
            r@.map_values(|s: String| s@) == self.included_ids(),
    {
        let mut r: Vec<String> = Vec::new();
        let mut i: usize = 0;
        while i < self.included.len()
            invariant
                i <= self.included@.len(),
                self.included_ids().len() == self.included@.len(),
                r@.map_values(|s: String| s@) =~= self.included_ids().take(i as int),
            decreases self.included@.len() - i,
        {
            let ghost pre_ids = r@.map_values(|s: String| s@);
            r.push(self.included[i].clone());
            proof {
                assert(r@.map_values(|s: String| s@) =~= pre_ids.push(
                    self.included_ids()[i as int],
                ));
                assert(self.included_ids().take(i + 1) =~= self.included_ids().take(
                    i as int,
                ).push(self.included_ids()[i as int]));
            }
            i = i + 1;
        }
        proof {
            assert(self.included_ids().take(self.included_ids().len() as int)
                =~= self.included_ids());
        }
        r
    }
}

} // verus!
