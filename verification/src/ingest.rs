//! Ingest with clustering: the merge-or-create decision for an incoming
//! item.
//!
//! The fingerprint is a coarse pre-filter: candidate clusters of the same
//! category within a Hamming distance of ten are considered.  An exact
//! title match fast-tracks the merge without outside verification;
//! otherwise the candidates are verified sequentially, in the order the
//! store returned them, stopping at the first the generation collaborator
//! confirms (first match wins, deliberately not best match).  The
//! collaborator calls themselves are the embedding program's work: it
//! feeds each answer back into this machine.
use vstd::prelude::*;
use vstd::string::*;
use crate::buffer::{NewsBuffer, has_key, key_match, similar_of};
use crate::cluster::{ClusterData, ClusterV, ItemV, PendingNewsItem, fingerprint_text};
use crate::fingerprint::simhash_of;
use crate::textproc::{title_match, titles_match, trim_of, trimmed_eq};

verus! {

/// Hamming distance bound for the coarse candidate pre-filter.
pub const SIMHASH_THRESHOLD: u32 = 10;

/// The singleton cluster created on first sighting of a topic.
pub open spec fn singleton_of(item: ItemV, id: Seq<char>, created_at: u64) -> ClusterV {
    ClusterV {
        id: id,
        main_item: item,
        related_items: Seq::empty(),
        simhash: simhash_of(fingerprint_text(item.title, item.description)) as u64,
        merged_summary: None,
        created_at: created_at,
    }
}

/// A cluster with one more related item; everything else unchanged.
pub open spec fn appended_to(c: ClusterV, item: ItemV) -> ClusterV {
    ClusterV {
        id: c.id,
        main_item: c.main_item,
        related_items: c.related_items.push(item),
        simhash: c.simhash,
        merged_summary: c.merged_summary,
        created_at: c.created_at,
    }
}

/// A cluster with one more related item and a merged title and summary;
/// the fingerprint is intentionally left stale.
pub open spec fn merged_into(c: ClusterV, item: ItemV, title: Seq<char>, summary: Seq<
    char,
>) -> ClusterV {
    ClusterV {
        id: c.id,
        main_item: ItemV { title: title, ..c.main_item },
        related_items: c.related_items.push(item),
        simhash: c.simhash,
        merged_summary: Some(summary),
        created_at: c.created_at,
    }
}

/// The buffer after an upsert of one cluster, as the store promises it.
pub open spec fn cluster_upserted(before: Seq<ClusterV>, after: Seq<ClusterV>, c: ClusterV) -> bool {
    (!has_key(before, c.main_item.category, c.id) && after == before.push(c)) || (has_key(
        before,
        c.main_item.category,
        c.id,
    ) && exists|j: int|
        0 <= j < before.len() && key_match(#[trigger] before[j], c.main_item.category, c.id)
            && after == before.update(j, c))
}

/// A new singleton cluster of this item was stored, under some fresh
/// identifier and the current time.
pub open spec fn stored_new_cluster(
    before: Seq<ClusterV>,
    after: Seq<ClusterV>,
    item: ItemV,
) -> bool {
    exists|id: Seq<char>, ts: u64|
        cluster_upserted(before, after, #[trigger] singleton_of(item, id, ts))
}

/// Whether the item's title equals the cluster's main title or the title
/// of one of its related items, up to white space and ASCII case.
pub open spec fn has_exact_title(item: ItemV, c: ClusterV) -> bool {
    title_match(c.main_item.title, item.title) || exists|k: int|
        0 <= k < c.related_items.len() && title_match(
            (#[trigger] c.related_items[k]).title,
            item.title,
        )
}

/// Whether the item repeats, title and body, something already in the
/// cluster; such an item is discarded rather than appended.
pub open spec fn strict_duplicate(item: ItemV, c: ClusterV) -> bool {
    (title_match(item.title, c.main_item.title) && trim_of(item.description) == trim_of(
        c.main_item.description,
    )) || exists|k: int|
        0 <= k < c.related_items.len() && title_match(
            (#[trigger] c.related_items[k]).title,
            item.title,
        ) && trim_of(c.related_items[k].description) == trim_of(item.description)
}

/// Whether an analyzed category labels an advertisement, which the ingest
/// boundary discards before any clustering work.
pub fn is_advertisement(category: &str) -> (r: bool)
    ensures
        r == (category@ == "\u{5e7f}\u{544a}"@ || category@ == "Advertisement"@),
{
    let c = String::from_str(category);
    c == String::from_str("\u{5e7f}\u{544a}") || c == String::from_str("Advertisement")
}

/// An ingest awaiting collaborator verdicts: the item, its candidate
/// clusters in store order, and the next candidate to verify.
pub struct IngestFlow {
    pub item: PendingNewsItem,
    pub candidates: Vec<ClusterData>,
    pub next: usize,
}

/// Where an ingest stands after the latest step.
pub enum IngestProgress {
    /// No candidate matched: a new singleton cluster was stored.  The item
    /// counts as new.
    CreatedNew,
    /// The item repeats cluster content exactly; nothing was stored.
    Discarded,
    /// The item joined an existing cluster.
    Appended,
    /// Ask the collaborator whether the item and `candidates[next]` report
    /// the same topic, then call `on_verify`.
    NeedVerify(IngestFlow),
    /// Ask the collaborator to merge the item into `candidates[next]`
    /// (a writer/editor loop), then call `on_merge`.
    NeedMerge(IngestFlow),
}

/// Append the item to the cluster, discarding it instead when it repeats
/// cluster content exactly; used when the titles already match.
fn resolve_title_identical(buffer: &mut NewsBuffer, item: PendingNewsItem, cand: ClusterData) -> (r:
    IngestProgress)
    requires
        old(buffer).wf(),
    ensures
        final(buffer).wf(),
        final(buffer).links() == old(buffer).links(),
        strict_duplicate(item@, cand@) ==> r is Discarded && final(buffer)@ == old(buffer)@,
        !strict_duplicate(item@, cand@) ==> r is Appended && cluster_upserted(
            old(buffer)@,
            final(buffer)@,
            appended_to(cand@, item@),
        ),
{
    let mut dup = titles_match(item.title.as_str(), cand.main_item.title.as_str()) && trimmed_eq(
        item.description.as_str(),
        cand.main_item.description.as_str(),
    );
    if !dup {
        let mut k: usize = 0;
        while k < cand.related_items.len() && !dup
            invariant
                k <= cand.related_items@.len(),
                dup ==> strict_duplicate(item@, cand@),
                !dup ==> forall|m: int|
                    0 <= m < k ==> !(title_match(
                        (#[trigger] cand@.related_items[m]).title,
                        item@.title,
                    ) && trim_of(cand@.related_items[m].description) == trim_of(
                        item@.description,
                    )),
            decreases cand.related_items@.len() - k + if dup {
                0int
            } else {
                1int
            },
        {
            let r = &cand.related_items[k];
            if titles_match(r.title.as_str(), item.title.as_str()) && trimmed_eq(
                r.description.as_str(),
                item.description.as_str(),
            ) {
                proof {
                    assert(cand@.related_items[k as int] == cand.related_items@[k as int]@);
                }
                dup = true;
            } else {
                proof {
                    assert(cand@.related_items[k as int] == cand.related_items@[k as int]@);
                }
                k = k + 1;
            }
        }
    } else {
        proof {
            assert(strict_duplicate(item@, cand@));
        }
    }
    if dup {
        return IngestProgress::Discarded;
    }
    proof {
        assert(!strict_duplicate(item@, cand@));
    }
    let ghost old_view = cand@;
    let mut cand = cand;
    cand.add_related(item);
    proof {
        assert(cand@.related_items =~= old_view.related_items.push(cand.related_items@.last()@));
        assert(cand@ == appended_to(old_view, cand.related_items@.last()@));
    }
    buffer.store_cluster(cand);
    IngestProgress::Appended
}

impl IngestFlow {
    /// Start ingesting an item: fingerprint it, collect candidate clusters
    /// of its category, and either store a new singleton (no candidates),
    /// resolve an exact title match without outside help, or hand back a
    /// flow that verifies the candidates in order.
    pub fn begin(buffer: &mut NewsBuffer, item: PendingNewsItem) -> (r: IngestProgress)
        requires
            old(buffer).wf(),
        ensures
            final(buffer).wf(),
            final(buffer).links() == old(buffer).links(),
            ({
                let h = simhash_of(fingerprint_text(item@.title, item@.description)) as u64;
                let sims = similar_of(old(buffer)@, item@.category, h, SIMHASH_THRESHOLD);
                &&& r is CreatedNew ==> sims.len() == 0 && stored_new_cluster(
                    old(buffer)@,
                    final(buffer)@,
                    item@,
                )
                &&& r is Discarded ==> final(buffer)@ == old(buffer)@ && exists|e: int|
                    0 <= e < sims.len() && has_exact_title(item@, #[trigger] sims[e])
                        && strict_duplicate(item@, sims[e])
                &&& r is Appended ==> exists|e: int|
                    0 <= e < sims.len() && has_exact_title(item@, #[trigger] sims[e])
                        && !strict_duplicate(item@, sims[e]) && cluster_upserted(
                        old(buffer)@,
                        final(buffer)@,
                        appended_to(sims[e], item@),
                    )
                &&& (r matches IngestProgress::NeedVerify(f) ==> final(buffer)@ == old(buffer)@
                    && f.item == item && f.candidates@.map_values(|c: ClusterData| c@) == sims
                    && f.next == 0 && sims.len() > 0 && forall|e: int|
                    0 <= e < sims.len() ==> !has_exact_title(item@, #[trigger] sims[e]))
                &&& !(r is NeedMerge)
            }),
    {
        let item_hash = ClusterData::calculate_simhash(
            item.title.as_str(),
            item.description.as_str(),
        );
        let candidates = buffer.find_similar_clusters(
            item.category.as_str(),
            item_hash,
            SIMHASH_THRESHOLD,
        );
        let ghost sims = similar_of(
            old(buffer)@,
            item@.category,
            simhash_of(fingerprint_text(item@.title, item@.description)) as u64,
            SIMHASH_THRESHOLD,
        );
        if candidates.len() == 0 {
            let c = ClusterData::new(item);
            proof {
                assert(c@.related_items =~= Seq::<ItemV>::empty());
                assert(c@ == singleton_of(c.main_item@, c@.id, c@.created_at));
            }
            let ghost cid = c@.id;
            let ghost cts = c@.created_at;
            let ghost civ = c.main_item@;
            buffer.store_cluster(c);
            proof {
                assert(cluster_upserted(old(buffer)@, buffer@, singleton_of(civ, cid, cts)));
            }
            return IngestProgress::CreatedNew;
        }
        // Fast path: an exact title match skips verification entirely.
        let n = candidates.len();
        let mut e: usize = 0;
        let mut found = false;
        while e < n && !found
            invariant
                n == candidates@.len(),
                candidates@.map_values(|c: ClusterData| c@) == sims,
                e <= n,
                found ==> e < n && has_exact_title(item@, sims[e as int]),
                !found ==> forall|m: int| 0 <= m < e ==> !has_exact_title(item@, #[trigger] sims[m]),
            decreases n - e + if found {
                0int
            } else {
                1int
            },
        {
            let c = &candidates[e];
            let mut hit = titles_match(c.main_item.title.as_str(), item.title.as_str());
            proof {
                assert(c@ == sims[e as int]);
            }
            if !hit {
                let mut k: usize = 0;
                while k < c.related_items.len() && !hit
                    invariant
                        k <= c.related_items@.len(),
                        c@ == sims[e as int],
                        e < n,
                        hit ==> has_exact_title(item@, sims[e as int]),
                        !hit ==> forall|m: int|
                            0 <= m < k ==> !title_match(
                                (#[trigger] c@.related_items[m]).title,
                                item@.title,
                            ),
                    decreases c.related_items@.len() - k + if hit {
                        0int
                    } else {
                        1int
                    },
                {
                    if titles_match(c.related_items[k].title.as_str(), item.title.as_str()) {
                        proof {
                            assert(c@.related_items[k as int] == c.related_items@[k as int]@);
                        }
                        hit = true;
                    } else {
                        proof {
                            assert(c@.related_items[k as int] == c.related_items@[k as int]@);
                        }
                        k = k + 1;
                    }
                }
                proof {
                    if !hit {
                        assert(!has_exact_title(item@, sims[e as int]));
                    }
                }
            }
            if hit {
                found = true;
            } else {
                e = e + 1;
            }
        }
        if found {
            let cand = candidates[e].clone();
            proof {
                assert(cand@ == sims[e as int]);
            }
            return resolve_title_identical(buffer, item, cand);
        }
        IngestProgress::NeedVerify(IngestFlow { item, candidates, next: 0 })
    }

    /// Digest the collaborator's verdict on candidate `next`.  A confirmed
    /// match with an identical title is resolved at once; a confirmed
    /// match with a differing title asks for a merge; a denial moves to
    /// the next candidate, or stores a new singleton when none is left.
    pub fn on_verify(self, buffer: &mut NewsBuffer, same_topic: bool) -> (r: IngestProgress)
        requires
            old(buffer).wf(),
            self.next < self.candidates@.len(),
        ensures
            final(buffer).wf(),
            final(buffer).links() == old(buffer).links(),
            ({
                let cand = self.candidates@[self.next as int]@;
                &&& (same_topic && title_match(self.item@.title, cand.main_item.title)
                    && strict_duplicate(self.item@, cand)) ==> r is Discarded && final(buffer)@
                    == old(buffer)@
                &&& (same_topic && title_match(self.item@.title, cand.main_item.title)
                    && !strict_duplicate(self.item@, cand)) ==> r is Appended && cluster_upserted(
                    old(buffer)@,
                    final(buffer)@,
                    appended_to(cand, self.item@),
                )
                &&& (same_topic && !title_match(self.item@.title, cand.main_item.title)) ==> (
                r matches IngestProgress::NeedMerge(f) && f.item == self.item && f.candidates@
                    == self.candidates@ && f.next == self.next && final(buffer)@ == old(buffer)@)
                &&& (!same_topic && self.next + 1 < self.candidates@.len()) ==> (
                r matches IngestProgress::NeedVerify(f) && f.item == self.item && f.candidates@
                    == self.candidates@ && f.next == self.next + 1 && final(buffer)@ == old(
                    buffer,
                )@)
                &&& (!same_topic && self.next + 1 == self.candidates@.len())
                    ==> r is CreatedNew && stored_new_cluster(
                    old(buffer)@,
                    final(buffer)@,
                    self.item@,
                )
            }),
    {
        let IngestFlow { item, candidates, next } = self;
        proof {
            assert(next < candidates@.len());
        }
        if same_topic {
            let cand = candidates[next].clone();
            if titles_match(item.title.as_str(), cand.main_item.title.as_str()) {
                resolve_title_identical(buffer, item, cand)
            } else {
                IngestProgress::NeedMerge(IngestFlow { item, candidates, next })
            }
        } else if next < candidates.len() - 1 {
            IngestProgress::NeedVerify(IngestFlow { item, candidates, next: next + 1 })
        } else {
            let c = ClusterData::new(item);
            proof {
                assert(c@.related_items =~= Seq::<ItemV>::empty());
                assert(c@ == singleton_of(c.main_item@, c@.id, c@.created_at));
            }
            let ghost cid = c@.id;
            let ghost cts = c@.created_at;
            let ghost civ = c.main_item@;
            buffer.store_cluster(c);
            proof {
                assert(cluster_upserted(old(buffer)@, buffer@, singleton_of(civ, cid, cts)));
            }
            IngestProgress::CreatedNew
        }
    }

    /// Digest the merge outcome for candidate `next`: the item joins the
    /// cluster, under the merged title and summary when the merge produced
    /// one.
    pub fn on_merge(self, buffer: &mut NewsBuffer, merged: Option<(String, String)>) -> (r:
        IngestProgress)
        requires
            old(buffer).wf(),
            self.next < self.candidates@.len(),
        ensures
            final(buffer).wf(),
            final(buffer).links() == old(buffer).links(),
            r is Appended,
            ({
                let cand = self.candidates@[self.next as int]@;
                match merged {
                    Some(ts) => cluster_upserted(
                        old(buffer)@,
                        final(buffer)@,
                        merged_into(cand, self.item@, ts.0@, ts.1@),
                    ),
                    None => cluster_upserted(
                        old(buffer)@,
                        final(buffer)@,
                        appended_to(cand, self.item@),
                    ),
                }
            }),
    {
        let IngestFlow { item, candidates, next } = self;
        let ghost cand_view = candidates@[next as int]@;
        let ghost item_view = item@;
        let mut cand = candidates[next].clone();
        cand.add_related(item);
        proof {
            assert(cand@.related_items =~= cand_view.related_items.push(item_view));
        }
        match merged {
            Some((t, s)) => {
                cand.set_merged_summary(t, s);
                proof {
                    assert(cand@.related_items =~= cand_view.related_items.push(item_view));
                    assert(cand@ == merged_into(
                        cand_view,
                        item_view,
                        cand.main_item.title@,
                        cand@.merged_summary->0,
                    ));
                }
                buffer.store_cluster(cand);
            },
            None => {
                proof {
                    assert(cand@ == appended_to(cand_view, item_view));
                }
                buffer.store_cluster(cand);
            },
        }
        IngestProgress::Appended
    }
}

} // verus!
