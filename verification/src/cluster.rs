//! Pending items and topic clusters.
//!
//! A cluster groups source items believed to report the same topic.  Its
//! fingerprint is computed once, from the main item only, and is never
//! recomputed after merges: a deliberate coarse-filter approximation.
use vstd::prelude::*;
use vstd::string::*;
use crate::external::{fresh_id, now_unix_secs};
use crate::fingerprint::{simhash_chars, simhash_of, hamming, hamming_of, chars_vec};

verus! {

/// A content item produced by the ingestion boundary; immutable once made.
pub struct PendingNewsItem {
    pub title: String,
    pub link: String,
    pub description: String,
    pub category: String,
    pub source_name: Option<String>,
    pub timestamp: u64,
}

/// Mathematical model of a pending item.
pub ghost struct ItemV {
    pub title: Seq<char>,
    pub link: Seq<char>,
    pub description: Seq<char>,
    pub category: Seq<char>,
    pub source_name: Option<Seq<char>>,
    pub timestamp: u64,
}

impl View for PendingNewsItem {
    type V = ItemV;

    open spec fn view(&self) -> ItemV {
        ItemV {
            title: self.title@,
            link: self.link@,
            description: self.description@,
            category: self.category@,
            source_name: match self.source_name {
                Some(s) => Some(s@),
                None => None,
            },
            timestamp: self.timestamp,
        }
    }
}

impl Clone for PendingNewsItem {
    fn clone(&self) -> (r: Self)
        ensures
            r == *self,
    {
        PendingNewsItem {
            title: self.title.clone(),
            link: self.link.clone(),
            description: self.description.clone(),
            category: self.category.clone(),
            source_name: match &self.source_name {
                Some(s) => Some(s.clone()),
                None => None,
            },
            timestamp: self.timestamp,
        }
    }
}

/// The text a cluster fingerprint is computed from: title, a space, then
/// the description.
pub open spec fn fingerprint_text(title: Seq<char>, description: Seq<char>) -> Seq<char> {
    title + seq![' '] + description
}

/// A group of related items reporting one topic.
pub struct ClusterData {
    pub id: String,
    pub main_item: PendingNewsItem,
    pub related_items: Vec<PendingNewsItem>,
    pub simhash: u64,
    pub merged_summary: Option<String>,
    pub created_at: u64,
}

/// Mathematical model of a cluster.
pub ghost struct ClusterV {
    pub id: Seq<char>,
    pub main_item: ItemV,
    pub related_items: Seq<ItemV>,
    pub simhash: u64,
    pub merged_summary: Option<Seq<char>>,
    pub created_at: u64,
}

impl View for ClusterData {
    type V = ClusterV;

    open spec fn view(&self) -> ClusterV {
        ClusterV {
            id: self.id@,
            main_item: self.main_item@,
            related_items: self.related_items@.map_values(|it: PendingNewsItem| it@),
            simhash: self.simhash,
            merged_summary: match self.merged_summary {
                Some(s) => Some(s@),
                None => None,
            },
            created_at: self.created_at,
        }
    }
}

impl Clone for ClusterData {
    fn clone(&self) -> (r: Self)
        ensures
            r.id == self.id,
            r.main_item == self.main_item,
            r.related_items@ == self.related_items@,
            r.simhash == self.simhash,
            r.merged_summary == self.merged_summary,
            r.created_at == self.created_at,
            r@ == self@,
    {
        ClusterData {
            id: self.id.clone(),
            main_item: self.main_item.clone(),
            related_items: clone_items(&self.related_items),
            simhash: self.simhash,
            merged_summary: match &self.merged_summary {
                Some(s) => Some(s.clone()),
                None => None,
            },
            created_at: self.created_at,
        }
    }
}

/// Clone a vector of items element by element.
pub fn clone_items(items: &Vec<PendingNewsItem>) -> (r: Vec<PendingNewsItem>)
    ensures
        r@ == items@,
{
    let mut r: Vec<PendingNewsItem> = Vec::new();
    let mut i: usize = 0;
    while i < items.len()
        invariant
            i <= items@.len(),
            r@ =~= items@.take(i as int),
        decreases items@.len() - i,
    {
        r.push(items[i].clone());
        i = i + 1;
    }
    proof {
        assert(items@.take(items@.len() as int) =~= items@);
        assert(r@ == items@);
    }
    r
}

impl ClusterData {
    /// Build a cluster from its first item with a caller-chosen identifier
    /// and creation time.
    pub fn with_id_at(item: PendingNewsItem, id: String, created_at: u64) -> (r: Self)
        ensures
            r.id == id,
            r.main_item == item,
            r.related_items@.len() == 0,
            r.simhash == simhash_of(fingerprint_text(item.title@, item.description@)),
            r.merged_summary is None,
            r.created_at == created_at,
    {
        let simhash = Self::calculate_simhash(item.title.as_str(), item.description.as_str());
        ClusterData {
            id,
            main_item: item,
            related_items: Vec::new(),
            simhash,
            merged_summary: None,
            created_at,
        }
    }

    /// Build a cluster from its first item, with a fresh identifier and
    /// the current time.
    pub fn new(item: PendingNewsItem) -> (r: Self)
        ensures
            r.main_item == item,
            r.related_items@.len() == 0,
            r.simhash == simhash_of(fingerprint_text(item.title@, item.description@)),
            r.merged_summary is None,
    {
        let id = fresh_id();
        let now = now_unix_secs();
        Self::with_id_at(item, id, now)
    }

    /// Fingerprint of the concatenated title and description.
    pub fn calculate_simhash(title: &str, description: &str) -> (r: u64)
        ensures
            r == simhash_of(fingerprint_text(title@, description@)),
    {
        let mut text = String::from_str(title);
        text.append(" ");
        text.append(description);
        proof {
            reveal_strlit(" ");
            assert(text@ =~= fingerprint_text(title@, description@));
        }
        let chars = chars_vec(text.as_str());
        simhash_chars(chars.as_slice())
    }

    /// Hamming distance between two fingerprints.
    pub fn hamming_distance(a: u64, b: u64) -> (d: u32)
        ensures
            d == hamming_of(a, b),
            d <= 64,
    {
        hamming(a, b)
    }

    /// Append a related item; every other field is left as it was.
    pub fn add_related(&mut self, item: PendingNewsItem)
        ensures
            final(self).related_items@ == old(self).related_items@.push(item),
            final(self).id == old(self).id,
            final(self).main_item == old(self).main_item,
            final(self).simhash == old(self).simhash,
            final(self).merged_summary == old(self).merged_summary,
            final(self).created_at == old(self).created_at,
    {
        self.related_items.push(item);
    }

    /// Overwrite the title with a merged title and record the merged
    /// summary; the fingerprint is intentionally not recomputed.
    pub fn set_merged_summary(&mut self, title: String, summary: String)
        ensures
            final(self).main_item.title == title,
            final(self).merged_summary == Some(summary),
            final(self).main_item.link == old(self).main_item.link,
            final(self).main_item.description == old(self).main_item.description,
            final(self).main_item.category == old(self).main_item.category,
            final(self).main_item.source_name == old(self).main_item.source_name,
            final(self).main_item.timestamp == old(self).main_item.timestamp,
            final(self).id == old(self).id,
            final(self).related_items == old(self).related_items,
            final(self).simhash == old(self).simhash,
            final(self).created_at == old(self).created_at,
    {
        self.main_item.title = title;
        self.merged_summary = Some(summary);
    }
}

} // verus!
