//! The cluster buffer: an upsert store of topic clusters keyed by
//! `(category, id)`, plus an independent set of processed source links.
//!
//! Every read-modify-write cycle of the pipeline re-fetches, mutates and
//! re-stores through this single owner, which serializes concurrent
//! mutation.  Durable storage of its contents is the embedding program's
//! concern; the buffer itself is the authoritative in-memory state.
use vstd::prelude::*;
use vstd::string::*;
use crate::cluster::{ClusterData, ClusterV};
use crate::fingerprint::{hamming, hamming_of};

verus! {

/// Whether a cluster is stored under the given category/id key.
pub open spec fn key_match(c: ClusterV, cat: Seq<char>, id: Seq<char>) -> bool {
    c.main_item.category == cat && c.id == id
}

/// Whether some cluster of the sequence carries the given key.
pub open spec fn has_key(s: Seq<ClusterV>, cat: Seq<char>, id: Seq<char>) -> bool {
    exists|i: int| 0 <= i < s.len() && key_match(s[i], cat, id)
}

/// The clusters of one category, in storage order.
pub open spec fn clusters_of(s: Seq<ClusterV>, cat: Seq<char>) -> Seq<ClusterV> {
    s.filter(|c: ClusterV| c.main_item.category == cat)
}

/// The clusters of one category within Hamming distance `threshold`
/// (exclusive) of a probe fingerprint, in storage order.
pub open spec fn similar_of(s: Seq<ClusterV>, cat: Seq<char>, h: u64, threshold: u32) -> Seq<
    ClusterV,
> {
    s.filter(|c: ClusterV| c.main_item.category == cat && hamming_of(c.simhash, h) < threshold)
}

/// Whether one of the given identifiers equals `id`.
pub open spec fn id_in(ids: Seq<Seq<char>>, id: Seq<char>) -> bool {
    exists|k: int| 0 <= k < ids.len() && ids[k] == id
}

/// What acknowledgment of a category's processed clusters keeps: everything
/// except that category's clusters with the listed identifiers.
pub open spec fn remove_result(
    s: Seq<ClusterV>,
    cat: Seq<char>,
    ids: Seq<Seq<char>>,
) -> Seq<ClusterV> {
    s.filter(|c: ClusterV| !(c.main_item.category == cat && id_in(ids, c.id)))
}

/// What popping a category keeps: every cluster of the other categories.
pub open spec fn without_category(s: Seq<ClusterV>, cat: Seq<char>) -> Seq<ClusterV> {
    s.filter(|c: ClusterV| c.main_item.category != cat)
}

/// The earliest creation time among a non-empty cluster sequence.
pub open spec fn oldest_of(s: Seq<ClusterV>) -> u64
    decreases s.len(),
{
    if s.len() <= 1 {
        if s.len() == 0 {
            0
        } else {
            s[0].created_at
        }
    } else {
        let rest = oldest_of(s.drop_last());
        if s.last().created_at < rest {
            s.last().created_at
        } else {
            rest
        }
    }
}

/// Per-category summary used by the flush scheduler.
pub struct CategoryStat {
    pub category: String,
    pub count: usize,
    pub oldest: u64,
}

/// One stat entry is correct for a cluster sequence.
pub open spec fn stat_ok(s: Seq<ClusterV>, st: CategoryStat) -> bool {
    &&& clusters_of(s, st.category@).len() == st.count
    &&& st.count > 0
    &&& st.oldest == oldest_of(clusters_of(s, st.category@))
}

/// A stats listing is correct and complete for a cluster sequence.
pub open spec fn stats_ok(s: Seq<ClusterV>, stats: Seq<CategoryStat>) -> bool {
    &&& forall|j: int| 0 <= j < stats.len() ==> stat_ok(s, #[trigger] stats[j])
    &&& forall|j: int, k: int|
        0 <= j < k < stats.len() ==> (#[trigger] stats[j]).category@ != (
        #[trigger] stats[k]).category@
    &&& forall|i: int|
        0 <= i < s.len() ==> exists|j: int|
            0 <= j < stats.len() && (#[trigger] stats[j]).category@ == (
            #[trigger] s[i]).main_item.category
}

/// A link entry is live when `now` has not passed its last sighting by more
/// than the retention window.
pub open spec fn link_live(ts: u64, retention_secs: u64, now: u64) -> bool {
    now <= ts + retention_secs
}

/// The persistent buffer of topic clusters and processed links.
pub struct NewsBuffer {
    clusters: Vec<ClusterData>,
    links: Vec<(String, u64)>,
}

impl View for NewsBuffer {
    type V = Seq<ClusterV>;

    closed spec fn view(&self) -> Seq<ClusterV> {
        self.clusters@.map_values(|c: ClusterData| c@)
    }
}

impl NewsBuffer {
    /// No two stored clusters share a key, and no two link entries share a
    /// link.
    pub open spec fn wf(&self) -> bool {
        &&& unique_keys(self@)
        &&& unique_links(self.links())
    }

    /// The processed-link entries: link text and last-seen time.
    pub closed spec fn links(&self) -> Seq<(Seq<char>, u64)> {
        self.links@.map_values(|e: (String, u64)| (e.0@, e.1))
    }

    /// An empty buffer.
    pub fn new() -> (r: Self)
        ensures
            r@ =~= Seq::<ClusterV>::empty(),
            r.links() =~= Seq::<(Seq<char>, u64)>::empty(),
            r.wf(),
    {
        NewsBuffer { clusters: Vec::new(), links: Vec::new() }
    }

    /// Upsert a cluster under its `(category, id)` key.
    pub fn store_cluster(&mut self, cluster: ClusterData)
        requires
            old(self).wf(),
        ensures
            final(self).wf(),
            final(self).links() == old(self).links(),
            !has_key(old(self)@, cluster@.main_item.category, cluster@.id) ==> final(self)@
                == old(self)@.push(cluster@),
            has_key(old(self)@, cluster@.main_item.category, cluster@.id) ==> exists|j: int|
                0 <= j < old(self)@.len() && key_match(
                    #[trigger] old(self)@[j],
                    cluster@.main_item.category,
                    cluster@.id,
                ) && final(self)@ == old(self)@.update(j, cluster@),
    {
        let ghost old_model = self@;
        let mut i: usize = 0;
        while i < self.clusters.len()
            invariant
                old_model == old(self)@,
                self@ == old_model,
                self.wf(),
                self.links() == old(self).links(),
                i <= self.clusters@.len(),
                self@.len() == self.clusters@.len(),
                forall|k: int|
                    0 <= k < i ==> !key_match(
                        #[trigger] self@[k],
                        cluster@.main_item.category,
                        cluster@.id,
                    ),
            decreases self.clusters@.len() - i,
        {
            if self.clusters[i].main_item.category == cluster.main_item.category
                && self.clusters[i].id == cluster.id {
                proof {
                    assert(old_model[i as int] == self.clusters@[i as int]@);
                    assert(key_match(old_model[i as int], cluster@.main_item.category, cluster@.id));
                    assert(has_key(old_model, cluster@.main_item.category, cluster@.id));
                }
                self.clusters.set(i, cluster);
                proof {
                    assert(self@ =~= old_model.update(i as int, cluster@));
                    assert forall|x: int, y: int| 0 <= x < y < self@.len() implies !key_match(
                        #[trigger] self@[x],
                        (#[trigger] self@[y]).main_item.category,
                        self@[y].id,
                    ) by {
                        assert(!key_match(
                            old_model[x],
                            old_model[y].main_item.category,
                            old_model[y].id,
                        ));
                    }
                }
                return ;
            }
            i = i + 1;
        }
        proof {
            assert forall|k: int|
                0 <= k < old_model.len() implies !key_match(
                #[trigger] old_model[k],
                cluster@.main_item.category,
                cluster@.id,
            ) by {}
            assert(!has_key(old_model, cluster@.main_item.category, cluster@.id));
        }
        self.clusters.push(cluster);
        proof {
            assert(self@ =~= old_model.push(cluster@));
            assert forall|x: int, y: int| 0 <= x < y < self@.len() implies !key_match(
                #[trigger] self@[x],
                (#[trigger] self@[y]).main_item.category,
                self@[y].id,
            ) by {
                if y < old_model.len() {
                    assert(!key_match(
                        old_model[x],
                        old_model[y].main_item.category,
                        old_model[y].id,
                    ));
                } else {
                    assert(self@[y] == cluster@);
                    assert(!key_match(old_model[x], cluster@.main_item.category, cluster@.id));
                }
            }
        }
    }

    /// All clusters of a category, in storage order.
    pub fn get_category_clusters(&self, category: &str) -> (r: Vec<ClusterData>)
        ensures
            r@.map_values(|c: ClusterData| c@) == clusters_of(self@, category@),
    {
        let cat = String::from_str(category);
        let mut r: Vec<ClusterData> = Vec::new();
        let mut i: usize = 0;
        while i < self.clusters.len()
            invariant
                cat@ == category@,
                i <= self.clusters@.len(),
                self@.len() == self.clusters@.len(),
                r@.map_values(|c: ClusterData| c@) == clusters_of(self@.take(i as int), category@),
            decreases self.clusters@.len() - i,
        {
            proof {
                lemma_filter_take_step(
                    self@,
                    i as int,
                    |c: ClusterV| c.main_item.category == category@,
                );
            }
            if self.clusters[i].main_item.category == cat {
                r.push(self.clusters[i].clone());
                proof {
                    assert(r@.map_values(|c: ClusterData| c@) =~= clusters_of(
                        self@.take(i + 1),
                        category@,
                    ));
                }
            } else {
                proof {
                    assert(r@.map_values(|c: ClusterData| c@) =~= clusters_of(
                        self@.take(i + 1),
                        category@,
                    ));
                }
            }
            i = i + 1;
        }
        proof {
            assert(self@.take(self@.len() as int) =~= self@);
        }
        r
    }

    /// The clusters of a category whose fingerprint lies within `threshold`
    /// (exclusive) of the probe.  Never returns a cluster of another
    /// category.
    pub fn find_similar_clusters(&self, category: &str, simhash: u64, threshold: u32) -> (r: Vec<
        ClusterData,
    >)
        ensures
            r@.map_values(|c: ClusterData| c@) == similar_of(self@, category@, simhash, threshold),
            forall|i: int|
                0 <= i < r@.len() ==> (#[trigger] r@[i])@.main_item.category == category@
                    && hamming_of(r@[i]@.simhash, simhash) < threshold,
    {
        let cat = String::from_str(category);
        let mut r: Vec<ClusterData> = Vec::new();
        let mut i: usize = 0;
        while i < self.clusters.len()
            invariant
                cat@ == category@,
                i <= self.clusters@.len(),
                self@.len() == self.clusters@.len(),
                r@.map_values(|c: ClusterData| c@) == similar_of(
                    self@.take(i as int),
                    category@,
                    simhash,
                    threshold,
                ),
                forall|k: int|
                    0 <= k < r@.len() ==> (#[trigger] r@[k])@.main_item.category == category@
                        && hamming_of(r@[k]@.simhash, simhash) < threshold,
            decreases self.clusters@.len() - i,
        {
            proof {
                lemma_filter_take_step(
                    self@,
                    i as int,
                    |c: ClusterV| c.main_item.category == category@ && hamming_of(c.simhash, simhash)
                        < threshold,
                );
            }
            let c = &self.clusters[i];
            let keep = if c.main_item.category == cat {
                let d = hamming(c.simhash, simhash);
                d < threshold
            } else {
                false
            };
            if keep {
                r.push(c.clone());
            }
            proof {
                assert(r@.map_values(|c: ClusterData| c@) =~= similar_of(
                    self@.take(i + 1),
                    category@,
                    simhash,
                    threshold,
                ));
            }
            i = i + 1;
        }
        proof {
            assert(self@.take(self@.len() as int) =~= self@);
        }
        r
    }

    /// Per-category cluster count and oldest creation time, one entry per
    /// stored category.
    pub fn get_category_stats(&self) -> (stats: Vec<CategoryStat>)
        ensures
            stats_ok(self@, stats@),
    {
        let mut stats: Vec<CategoryStat> = Vec::new();
        let mut i: usize = 0;
        while i < self.clusters.len()
            invariant
                i <= self.clusters@.len(),
                self@.len() == self.clusters@.len(),
                stats_ok(self@.take(i as int), stats@),
            decreases self.clusters@.len() - i,
        {
            proof {
                lemma_clusters_of_take_step(self@, i as int);
            }
            let ghost ccat = self@[i as int].main_item.category;
            let ghost pre = self@.take(i as int);
            let ghost post = self@.take(i as int + 1);
            let mut j: usize = 0;
            let mut found = false;
            while j < stats.len() && !found
                invariant
                    j <= stats@.len(),
                    i < self.clusters@.len(),
                    ccat == self@[i as int].main_item.category,
                    found ==> j < stats@.len() && (#[trigger] stats@[j as int]).category@ == ccat,
                    !found ==> forall|k: int|
                        0 <= k < j ==> (#[trigger] stats@[k]).category@ != ccat,
                decreases stats@.len() - j + if found {
                    0int
                } else {
                    1int
                },
            {
                if stats[j].category == self.clusters[i].main_item.category {
                    found = true;
                } else {
                    j = j + 1;
                }
            }
            let c = &self.clusters[i];
            let ghost old_stats = stats@;
            if found {
                let old_count = stats[j].count;
                let old_oldest = stats[j].oldest;
                let cat2 = stats[j].category.clone();
                let new_oldest = if c.created_at < old_oldest {
                    c.created_at
                } else {
                    old_oldest
                };
                proof {
                    lemma_oldest_push(clusters_of(pre, ccat), self@[i as int]);
                }
                stats.set(
                    j,
                    CategoryStat { category: cat2, count: old_count + 1, oldest: new_oldest },
                );
                proof {
                    assert(stats@[j as int].category@ == ccat);
                    assert(clusters_of(post, ccat) == clusters_of(pre, ccat).push(
                        self@[i as int],
                    ));
                    assert forall|k: int| 0 <= k < stats@.len() implies stat_ok(
                        post,
                        #[trigger] stats@[k],
                    ) by {
                        assert(stat_ok(pre, old_stats[k]));
                        if k == j {
                            assert(clusters_of(pre, ccat).len() == old_count);
                        } else {
                            assert(stats@[k] == old_stats[k]);
                            assert(old_stats[k].category@ != old_stats[j as int].category@);
                            assert(clusters_of(post, stats@[k].category@) == clusters_of(
                                pre,
                                stats@[k].category@,
                            ));
                        }
                    }
                    assert forall|x: int, y: int| 0 <= x < y < stats@.len() implies (
                    #[trigger] stats@[x]).category@ != (#[trigger] stats@[y]).category@ by {
                        assert(old_stats[x].category@ != old_stats[y].category@);
                        assert(stats@[x].category@ == old_stats[x].category@);
                        assert(stats@[y].category@ == old_stats[y].category@);
                    }
                    assert forall|m: int| 0 <= m < post.len() implies exists|k: int|
                        0 <= k < stats@.len() && (#[trigger] stats@[k]).category@ == (
                        #[trigger] post[m]).main_item.category by {
                        if m < i {
                            assert(post[m] == pre[m]);
                            let k0 = choose|k0: int|
                                0 <= k0 < old_stats.len() && (#[trigger] old_stats[k0]).category@
                                    == pre[m].main_item.category;
                            assert(stats@[k0].category@ == old_stats[k0].category@);
                        } else {
                            assert(post[m] == self@[i as int]);
                            assert(stats@[j as int].category@ == ccat);
                        }
                    }
                }
            } else {
                let cat2 = c.main_item.category.clone();
                proof {
                    assert forall|m: int|
                        0 <= m < i implies (#[trigger] pre[m]).main_item.category != ccat by {
                        if pre[m].main_item.category == ccat {
                            let k0 = choose|k0: int|
                                0 <= k0 < stats@.len() && (#[trigger] stats@[k0]).category@
                                    == pre[m].main_item.category;
                        }
                    }
                    lemma_filter_empty_when_none(pre, |cl: ClusterV| cl.main_item.category == ccat);
                    assert(clusters_of(pre, ccat).len() == 0);
                    lemma_oldest_push(clusters_of(pre, ccat), self@[i as int]);
                }
                stats.push(CategoryStat { category: cat2, count: 1, oldest: c.created_at });
                proof {
                    let ghost nj = old_stats.len() as int;
                    assert(stats@[nj].category@ == ccat);
                    assert(clusters_of(post, ccat) == clusters_of(pre, ccat).push(
                        self@[i as int],
                    ));
                    assert(clusters_of(post, ccat).len() == 1);
                    assert(oldest_of(clusters_of(post, ccat)) == self@[i as int].created_at);
                    assert forall|k: int| 0 <= k < stats@.len() implies stat_ok(
                        post,
                        #[trigger] stats@[k],
                    ) by {
                        if k < nj {
                            assert(stat_ok(pre, old_stats[k]));
                            assert(stats@[k] == old_stats[k]);
                            assert(stats@[k].category@ != ccat);
                            assert(clusters_of(post, stats@[k].category@) == clusters_of(
                                pre,
                                stats@[k].category@,
                            ));
                        } else {
                            assert(stat_ok(post, stats@[nj]));
                        }
                    }
                    assert forall|x: int, y: int| 0 <= x < y < stats@.len() implies (
                    #[trigger] stats@[x]).category@ != (#[trigger] stats@[y]).category@ by {
                        if y < nj {
                            assert(old_stats[x].category@ != old_stats[y].category@);
                        } else {
                            assert(stats@[y].category@ == ccat);
                            assert(stats@[x].category@ != ccat);
                        }
                    }
                    assert forall|m: int| 0 <= m < post.len() implies exists|k: int|
                        0 <= k < stats@.len() && (#[trigger] stats@[k]).category@ == (
                        #[trigger] post[m]).main_item.category by {
                        if m < i {
                            assert(post[m] == pre[m]);
                            let k0 = choose|k0: int|
                                0 <= k0 < old_stats.len() && (#[trigger] old_stats[k0]).category@
                                    == pre[m].main_item.category;
                            assert(stats@[k0].category@ == old_stats[k0].category@);
                        } else {
                            assert(post[m] == self@[i as int]);
                            assert(stats@[nj].category@ == ccat);
                        }
                    }
                }
            }
            i = i + 1;
        }
        proof {
            assert(self@.take(self@.len() as int) =~= self@);
        }
        stats
    }

    /// Remove and return all clusters of a category.
    pub fn pop_category_clusters(&mut self, category: &str) -> (r: Vec<ClusterData>)
        requires
            old(self).wf(),
        ensures
            final(self).wf(),
            final(self).links() == old(self).links(),
            r@.map_values(|c: ClusterData| c@) == clusters_of(old(self)@, category@),
            final(self)@ == without_category(old(self)@, category@),
    {
        let r = self.get_category_clusters(category);
        let cat = String::from_str(category);
        let ghost old_model = self@;
        let mut kept: Vec<ClusterData> = Vec::new();
        let mut i: usize = 0;
        while i < self.clusters.len()
            invariant
                cat@ == category@,
                i <= self.clusters@.len(),
                self@ == old_model,
                self@.len() == self.clusters@.len(),
                kept@.map_values(|c: ClusterData| c@) == without_category(
                    self@.take(i as int),
                    category@,
                ),
            decreases self.clusters@.len() - i,
        {
            proof {
                lemma_filter_take_step(
                    self@,
                    i as int,
                    |c: ClusterV| c.main_item.category != category@,
                );
            }
            if !(self.clusters[i].main_item.category == cat) {
                kept.push(self.clusters[i].clone());
            }
            proof {
                assert(kept@.map_values(|c: ClusterData| c@) =~= without_category(
                    self@.take(i + 1),
                    category@,
                ));
            }
            i = i + 1;
        }
        proof {
            assert(self@.take(self@.len() as int) =~= self@);
        }
        self.clusters = kept;
        proof {
            lemma_filter_wf_preserved(old_model, |c: ClusterV| c.main_item.category != category@);
        }
        r
    }

    /// Acknowledgment after confirmed delivery: remove exactly the listed
    /// clusters of the category; everything else is retained.
    pub fn remove_clusters(&mut self, category: &str, ids: &Vec<String>)
        requires
            old(self).wf(),
        ensures
            final(self).wf(),
            final(self).links() == old(self).links(),
            final(self)@ == remove_result(
                old(self)@,
                category@,
                ids@.map_values(|s: String| s@),
            ),
    {
        let cat = String::from_str(category);
        let ghost idv = ids@.map_values(|s: String| s@);
        let ghost old_model = self@;
        let mut kept: Vec<ClusterData> = Vec::new();
        let mut i: usize = 0;
        while i < self.clusters.len()
            invariant
                cat@ == category@,
                idv == ids@.map_values(|s: String| s@),
                i <= self.clusters@.len(),
                self@ == old_model,
                self@.len() == self.clusters@.len(),
                kept@.map_values(|c: ClusterData| c@) == remove_result(
                    self@.take(i as int),
                    category@,
                    idv,
                ),
            decreases self.clusters@.len() - i,
        {
            proof {
                lemma_filter_take_step(
                    self@,
                    i as int,
                    |c: ClusterV| !(c.main_item.category == category@ && id_in(idv, c.id)),
                );
            }
            let mut listed = false;
            if self.clusters[i].main_item.category == cat {
                let mut k: usize = 0;
                while k < ids.len() && !listed
                    invariant
                        idv == ids@.map_values(|s: String| s@),
                        k <= ids@.len(),
                        i < self.clusters@.len(),
                        listed ==> id_in(idv, self@[i as int].id),
                        !listed ==> forall|m: int|
                            0 <= m < k ==> ids@[m]@ != self@[i as int].id,
                    decreases ids@.len() - k + if listed {
                        0int
                    } else {
                        1int
                    },
                {
                    if ids[k] == self.clusters[i].id {
                        proof {
                            assert(idv[k as int] == ids@[k as int]@);
                            assert(idv[k as int] == self@[i as int].id);
                        }
                        listed = true;
                    } else {
                        k = k + 1;
                    }
                }
            }
            let c = &self.clusters[i];
            if !listed {
                kept.push(c.clone());
            }
            proof {
                assert(kept@.map_values(|c: ClusterData| c@) =~= remove_result(
                    self@.take(i + 1),
                    category@,
                    idv,
                ));
            }
            i = i + 1;
        }
        proof {
            assert(self@.take(self@.len() as int) =~= self@);
        }
        self.clusters = kept;
        proof {
            lemma_filter_wf_preserved(
                old_model,
                |c: ClusterV| !(c.main_item.category == category@ && id_in(idv, c.id)),
            );
        }
    }

    /// Every stored cluster, in storage order: the image a durable store
    /// writes out.
    pub fn clusters_list(&self) -> (r: Vec<ClusterData>)
        ensures
            r@.map_values(|c: ClusterData| c@) == self@,
    {
        let mut r: Vec<ClusterData> = Vec::new();
        let mut i: usize = 0;
        while i < self.clusters.len()
            invariant
                i <= self.clusters@.len(),
                self@.len() == self.clusters@.len(),
                r@.map_values(|c: ClusterData| c@) =~= self@.take(i as int),
            decreases self.clusters@.len() - i,
        {
            let ghost pre = r@.map_values(|c: ClusterData| c@);
            let c2 = self.clusters[i].clone();
            let ghost cv = c2@;
            r.push(c2);
            proof {
                assert(r@.map_values(|c: ClusterData| c@) =~= pre.push(cv));
                assert(cv == self@[i as int]);
                assert(self@.take(i + 1) =~= self@.take(i as int).push(self@[i as int]));
            }
            i = i + 1;
        }
        proof {
            assert(self@.take(self@.len() as int) =~= self@);
        }
        r
    }

    /// Every processed-link entry, in storage order: the image a durable
    /// store writes out.
    pub fn link_entries(&self) -> (r: Vec<(String, u64)>)
        ensures
            r@.map_values(|e: (String, u64)| (e.0@, e.1)) == self.links(),
    {
        let mut r: Vec<(String, u64)> = Vec::new();
        let mut i: usize = 0;
        while i < self.links.len()
            invariant
                i <= self.links@.len(),
                self.links().len() == self.links@.len(),
                r@.map_values(|e: (String, u64)| (e.0@, e.1)) =~= self.links().take(i as int),
            decreases self.links@.len() - i,
        {
            let ghost pre = r@.map_values(|e: (String, u64)| (e.0@, e.1));
            let link = self.links[i].0.clone();
            let ts = self.links[i].1;
            let ghost ev = (link@, ts);
            r.push((link, ts));
            proof {
                assert(r@.map_values(|e: (String, u64)| (e.0@, e.1)) =~= pre.push(ev));
                assert(ev == self.links()[i as int]);
                assert(self.links().take(i + 1) =~= self.links().take(i as int).push(
                    self.links()[i as int],
                ));
            }
            i = i + 1;
        }
        proof {
            assert(self.links().take(self.links().len() as int) =~= self.links());
        }
        r
    }

    /// Whether a source link was already processed.
    pub fn has_processed_link(&self, link: &str) -> (r: bool)
        ensures
            r == exists|i: int| 0 <= i < self.links().len() && (#[trigger] self.links()[i]).0
                == link@,
    {
        let l = String::from_str(link);
        let mut i: usize = 0;
        while i < self.links.len()
            invariant
                l@ == link@,
                i <= self.links@.len(),
                self.links().len() == self.links@.len(),
                forall|k: int| 0 <= k < i ==> (#[trigger] self.links()[k]).0 != link@,
            decreases self.links@.len() - i,
        {
            if self.links[i].0 == l {
                proof {
                    assert((#[trigger] self.links()[i as int]).0 == link@);
                }
                return true;
            }
            i = i + 1;
        }
        false
    }

    /// Record a source link as processed at the given time, overwriting any
    /// earlier sighting.
    pub fn mark_link_processed(&mut self, link: &str, now: u64)
        requires
            old(self).wf(),
        ensures
            final(self).wf(),
            final(self)@ == old(self)@,
            exists|i: int|
                0 <= i < final(self).links().len() && (#[trigger] final(self).links()[i]) == (
                link@,
                now,
            ),
    {
        let l = String::from_str(link);
        let ghost old_links = self.links();
        let mut i: usize = 0;
        while i < self.links.len()
            invariant
                l@ == link@,
                i <= self.links@.len(),
                self.links() == old_links,
                self@ == old(self)@,
                self.wf(),
                self.links().len() == self.links@.len(),
                forall|k: int| 0 <= k < i ==> (#[trigger] self.links()[k]).0 != link@,
            decreases self.links@.len() - i,
        {
            if self.links[i].0 == l {
                self.links.set(i, (l, now));
                proof {
                    assert(self.links() =~= old_links.update(i as int, (link@, now)));
                    assert((#[trigger] self.links()[i as int]) == (link@, now));
                    assert forall|x: int, y: int| 0 <= x < y < self.links().len() implies (
                    #[trigger] self.links()[x]).0 != (#[trigger] self.links()[y]).0 by {
                        assert(old_links[x].0 != old_links[y].0);
                        assert(old_links[i as int].0 == link@);
                    }
                }
                return ;
            }
            i = i + 1;
        }
        self.links.push((l, now));
        proof {
            assert(self.links() =~= old_links.push((link@, now)));
            let ghost n = self.links().len() - 1;
            assert((#[trigger] self.links()[n]) == (link@, now));
            assert forall|x: int, y: int| 0 <= x < y < self.links().len() implies (
            #[trigger] self.links()[x]).0 != (#[trigger] self.links()[y]).0 by {
                if y < old_links.len() {
                    assert(old_links[x].0 != old_links[y].0);
                } else {
                    assert(self.links()[y] == (link@, now));
                    assert(old_links[x].0 != link@);
                }
            }
        }
    }

    /// Drop link entries whose last sighting lies more than the retention
    /// window in the past; returns how many were dropped.
    pub fn prune_old_links(&mut self, retention_secs: u64, now: u64) -> (count: usize)
        requires
            old(self).wf(),
        ensures
            final(self).wf(),
            final(self)@ == old(self)@,
            final(self).links() == old(self).links().filter(
                |e: (Seq<char>, u64)| link_live(e.1, retention_secs, now),
            ),
            count == old(self).links().len() - final(self).links().len(),
    {
        let ghost old_links = self.links();
        let mut kept: Vec<(String, u64)> = Vec::new();
        let mut i: usize = 0;
        while i < self.links.len()
            invariant
                i <= self.links@.len(),
                self.links() == old_links,
                self@ == old(self)@,
                self.links().len() == self.links@.len(),
                kept@.map_values(|e: (String, u64)| (e.0@, e.1)) == self.links().take(
                    i as int,
                ).filter(|e: (Seq<char>, u64)| link_live(e.1, retention_secs, now)),
                kept@.len() <= i,
            decreases self.links@.len() - i,
        {
            proof {
                lemma_links_filter_take_step(
                    self.links(),
                    i as int,
                    |e: (Seq<char>, u64)| link_live(e.1, retention_secs, now),
                );
            }
            let ts = self.links[i].1;
            let live = if retention_secs <= u64::MAX - ts {
                now <= ts + retention_secs
            } else {
                true
            };
            if live {
                let lk = self.links[i].0.clone();
                kept.push((lk, ts));
            }
            proof {
                assert(kept@.map_values(|e: (String, u64)| (e.0@, e.1)) =~= self.links().take(
                    i + 1,
                ).filter(|e: (Seq<char>, u64)| link_live(e.1, retention_secs, now)));
            }
            i = i + 1;
        }
        proof {
            assert(self.links().take(self.links().len() as int) =~= self.links());
        }
        let removed = self.links.len() - kept.len();
        proof {
            old_links.lemma_filter_len(|e: (Seq<char>, u64)| link_live(e.1, retention_secs, now));
            lemma_links_filter_wf_preserved(
                old_links,
                |e: (Seq<char>, u64)| link_live(e.1, retention_secs, now),
            );
        }
        self.links = kept;
        removed
    }
}

/// Filtering a prefix one element further appends that element exactly when
/// it satisfies the predicate.
proof fn lemma_filter_take_step(s: Seq<ClusterV>, i: int, pred: spec_fn(ClusterV) -> bool)
    requires
        0 <= i < s.len(),
    ensures
        pred(s[i]) ==> s.take(i + 1).filter(pred) == s.take(i).filter(pred).push(s[i]),
        !pred(s[i]) ==> s.take(i + 1).filter(pred) == s.take(i).filter(pred),
    decreases s.len(),
{
    reveal(Seq::filter);
    assert(s.take(i + 1).drop_last() =~= s.take(i));
    assert(s.take(i + 1).last() == s[i]);
}

/// The same step fact for link entries.
proof fn lemma_links_filter_take_step(
    s: Seq<(Seq<char>, u64)>,
    i: int,
    pred: spec_fn((Seq<char>, u64)) -> bool,
)
    requires
        0 <= i < s.len(),
    ensures
        pred(s[i]) ==> s.take(i + 1).filter(pred) == s.take(i).filter(pred).push(s[i]),
        !pred(s[i]) ==> s.take(i + 1).filter(pred) == s.take(i).filter(pred),
{
    reveal(Seq::filter);
    assert(s.take(i + 1).drop_last() =~= s.take(i));
    assert(s.take(i + 1).last() == s[i]);
}

/// Appending a cluster to a non-empty group moves the oldest time to the
/// minimum of the old oldest and the newcomer; a singleton's oldest is its
/// own creation time.
proof fn lemma_oldest_push(s: Seq<ClusterV>, c: ClusterV)
    ensures
        s.len() == 0 ==> oldest_of(s.push(c)) == c.created_at,
        s.len() > 0 ==> oldest_of(s.push(c)) == if c.created_at < oldest_of(s) {
            c.created_at
        } else {
            oldest_of(s)
        },
{
    assert(s.push(c).drop_last() =~= s);
    assert(s.push(c).last() == c);
}

/// Pairwise distinctness of cluster keys.
pub open spec fn unique_keys(s: Seq<ClusterV>) -> bool {
    forall|i: int, j: int|
        0 <= i < j < s.len() ==> !key_match(
            #[trigger] s[i],
            (#[trigger] s[j]).main_item.category,
            s[j].id,
        )
}

/// Every filter output occurs among the inputs.
proof fn lemma_filter_element_from(s: Seq<ClusterV>, pred: spec_fn(ClusterV) -> bool, i: int)
    requires
        0 <= i < s.filter(pred).len(),
    ensures
        exists|x: int| 0 <= x < s.len() && s[x] == s.filter(pred)[i],
    decreases s.len(),
{
    reveal(Seq::filter);
    if s.len() > 0 {
        let fd = s.drop_last().filter(pred);
        if i < fd.len() {
            lemma_filter_element_from(s.drop_last(), pred, i);
            let x = choose|x: int| 0 <= x < s.drop_last().len() && s.drop_last()[x] == fd[i];
            assert(s[x] == s.filter(pred)[i]);
        } else {
            assert(s[s.len() - 1] == s.filter(pred)[i]);
        }
    }
}

/// Filtering never introduces a duplicate key.
proof fn lemma_filter_wf_preserved(s: Seq<ClusterV>, pred: spec_fn(ClusterV) -> bool)
    requires
        unique_keys(s),
    ensures
        unique_keys(s.filter(pred)),
    decreases s.len(),
{
    reveal(Seq::filter);
    if s.len() > 0 {
        let d = s.drop_last();
        assert(unique_keys(d)) by {
            assert(forall|i: int| 0 <= i < d.len() ==> d[i] == s[i]);
        }
        lemma_filter_wf_preserved(d, pred);
        let fd = d.filter(pred);
        if pred(s.last()) {
            let f = s.filter(pred);
            assert(f == fd.push(s.last()));
            assert forall|i: int, j: int| 0 <= i < j < f.len() implies !key_match(
                #[trigger] f[i],
                (#[trigger] f[j]).main_item.category,
                f[j].id,
            ) by {
                if j < fd.len() {
                    assert(f[i] == fd[i] && f[j] == fd[j]);
                } else {
                    assert(f[j] == s.last());
                    lemma_filter_element_from(d, pred, i);
                    let x = choose|x: int| 0 <= x < d.len() && d[x] == fd[i];
                    assert(s[x] == f[i]);
                    assert(!key_match(s[x], s[s.len() - 1].main_item.category, s[s.len() - 1].id));
                }
            }
        }
    }
}

/// Every link-entry filter output occurs among the inputs.
proof fn lemma_links_filter_element_from(
    s: Seq<(Seq<char>, u64)>,
    pred: spec_fn((Seq<char>, u64)) -> bool,
    i: int,
)
    requires
        0 <= i < s.filter(pred).len(),
    ensures
        exists|x: int| 0 <= x < s.len() && s[x] == s.filter(pred)[i],
    decreases s.len(),
{
    reveal(Seq::filter);
    if s.len() > 0 {
        let fd = s.drop_last().filter(pred);
        if i < fd.len() {
            lemma_links_filter_element_from(s.drop_last(), pred, i);
            let x = choose|x: int| 0 <= x < s.drop_last().len() && s.drop_last()[x] == fd[i];
            assert(s[x] == s.filter(pred)[i]);
        } else {
            assert(s[s.len() - 1] == s.filter(pred)[i]);
        }
    }
}

/// Pairwise distinctness of link texts.
pub open spec fn unique_links(s: Seq<(Seq<char>, u64)>) -> bool {
    forall|i: int, j: int| 0 <= i < j < s.len() ==> (#[trigger] s[i]).0 != (#[trigger] s[j]).0
}

/// Filtering never introduces a duplicate link.
proof fn lemma_links_filter_wf_preserved(
    s: Seq<(Seq<char>, u64)>,
    pred: spec_fn((Seq<char>, u64)) -> bool,
)
    requires
        unique_links(s),
    ensures
        unique_links(s.filter(pred)),
    decreases s.len(),
{
    reveal(Seq::filter);
    if s.len() > 0 {
        let d = s.drop_last();
        assert(unique_links(d)) by {
            assert(forall|i: int| 0 <= i < d.len() ==> d[i] == s[i]);
        }
        lemma_links_filter_wf_preserved(d, pred);
        let fd = d.filter(pred);
        if pred(s.last()) {
            let f = s.filter(pred);
            assert(f == fd.push(s.last()));
            assert forall|i: int, j: int| 0 <= i < j < f.len() implies (#[trigger] f[i]).0 != (
            #[trigger] f[j]).0 by {
                if j < fd.len() {
                    assert(f[i] == fd[i] && f[j] == fd[j]);
                } else {
                    assert(f[j] == s.last());
                    lemma_links_filter_element_from(d, pred, i);
                    let x = choose|x: int| 0 <= x < d.len() && d[x] == fd[i];
                    assert(s[x] == f[i]);
                    assert(s[x].0 != s[s.len() - 1].0);
                }
            }
        }
    }
}

/// A filter over elements that all fail the predicate is empty.
proof fn lemma_filter_empty_when_none(s: Seq<ClusterV>, pred: spec_fn(ClusterV) -> bool)
    requires
        forall|i: int| 0 <= i < s.len() ==> !pred(s[i]),
    ensures
        s.filter(pred) =~= Seq::<ClusterV>::empty(),
    decreases s.len(),
{
    reveal(Seq::filter);
    if s.len() > 0 {
        lemma_filter_empty_when_none(s.drop_last(), pred);
    }
}

/// Step fact for whole-category grouping: extending the prefix by one
/// cluster extends exactly its own category's group.
proof fn lemma_clusters_of_take_step(s: Seq<ClusterV>, i: int)
    requires
        0 <= i < s.len(),
    ensures
        forall|cat: Seq<char>|
            s[i].main_item.category == cat ==> #[trigger] clusters_of(s.take(i + 1), cat)
                == clusters_of(s.take(i), cat).push(s[i]),
        forall|cat: Seq<char>|
            s[i].main_item.category != cat ==> #[trigger] clusters_of(s.take(i + 1), cat)
                == clusters_of(s.take(i), cat),
{
    reveal(Seq::filter);
    assert(s.take(i + 1).drop_last() =~= s.take(i));
    assert(s.take(i + 1).last() == s[i]);
}

} // verus!
