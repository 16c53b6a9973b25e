//! Wire payloads exchanged with the downstream content store.
//!
//! The store itself is an outside collaborator; these types model exactly
//! the data the pipeline hands it and reads back.
use vstd::prelude::*;

verus! {

/// A source reference attached to a published item.
pub struct SourceInfo {
    pub url: String,
    pub title: String,
    pub summary: String,
}

/// Mathematical model of a source reference.
pub ghost struct SourceV {
    pub url: Seq<char>,
    pub title: Seq<char>,
    pub summary: Seq<char>,
}

impl View for SourceInfo {
    type V = SourceV;

    open spec fn view(&self) -> SourceV {
        SourceV { url: self.url@, title: self.title@, summary: self.summary@ }
    }
}

impl Clone for SourceInfo {
    fn clone(&self) -> (r: Self)
        ensures
            r == *self,
    {
        SourceInfo { url: self.url.clone(), title: self.title.clone(), summary: self.summary.clone() }
    }
}

/// A published item as pushed to the content store.
pub struct ItemPayload {
    pub id: Option<String>,
    pub title: String,
    pub summary: Option<String>,
    pub original_url: Option<String>,
    pub cover_image_url: Option<String>,
    pub audio_url: Option<String>,
    pub publish_time: Option<i64>,
    pub duration_sec: Option<i64>,
    pub sources: Option<Vec<SourceInfo>>,
    pub category: Option<String>,
}

/// Mathematical model of a published item payload.
pub ghost struct PayloadV {
    pub id: Option<Seq<char>>,
    pub title: Seq<char>,
    pub summary: Option<Seq<char>>,
    pub original_url: Option<Seq<char>>,
    pub cover_image_url: Option<Seq<char>>,
    pub audio_url: Option<Seq<char>>,
    pub publish_time: Option<i64>,
    pub duration_sec: Option<i64>,
    pub sources: Option<Seq<SourceV>>,
    pub category: Option<Seq<char>>,
}

/// The view of an optional string.
pub open spec fn opt_view(o: Option<String>) -> Option<Seq<char>> {
    match o {
        Some(s) => Some(s@),
        None => None,
    }
}

impl View for ItemPayload {
    type V = PayloadV;

    open spec fn view(&self) -> PayloadV {
        PayloadV {
            id: opt_view(self.id),
            title: self.title@,
            summary: opt_view(self.summary),
            original_url: opt_view(self.original_url),
            cover_image_url: opt_view(self.cover_image_url),
            audio_url: opt_view(self.audio_url),
            publish_time: self.publish_time,
            duration_sec: self.duration_sec,
            sources: match self.sources {
                Some(v) => Some(v@.map_values(|s: SourceInfo| s@)),
                None => None,
            },
            category: opt_view(self.category),
        }
    }
}

/// Clone an optional string.
pub fn clone_opt_string(o: &Option<String>) -> (r: Option<String>)
    ensures
        r == *o,
{
    match o {
        Some(s) => Some(s.clone()),
        None => None,
    }
}

impl Clone for ItemPayload {
    fn clone(&self) -> (r: Self)
        ensures
            r@ == self@,
    {
        ItemPayload {
            id: clone_opt_string(&self.id),
            title: self.title.clone(),
            summary: clone_opt_string(&self.summary),
            original_url: clone_opt_string(&self.original_url),
            cover_image_url: clone_opt_string(&self.cover_image_url),
            audio_url: clone_opt_string(&self.audio_url),
            publish_time: self.publish_time,
            duration_sec: self.duration_sec,
            sources: match &self.sources {
                Some(v) => Some(clone_sources(v)),
                None => None,
            },
            category: clone_opt_string(&self.category),
        }
    }
}

/// Clone a vector of source references.
pub fn clone_sources(v: &Vec<SourceInfo>) -> (r: Vec<SourceInfo>)
    ensures
        r@ == v@,
{
    let mut r: Vec<SourceInfo> = Vec::new();
    let mut i: usize = 0;
    while i < v.len()
        invariant
            i <= v@.len(),
            r@ =~= v@.take(i as int),
        decreases v@.len() - i,
    {
        r.push(v[i].clone());
        i = i + 1;
    }
    proof {
        assert(v@.take(v@.len() as int) =~= v@);
    }
    r
}

/// Request to check which of the given URLs the store already knows.
pub struct CheckRequest {
    pub urls: Vec<String>,
}

/// The URLs the store already knows, out of a checked batch.
pub struct CheckResponse {
    pub existing_urls: Vec<String>,
}

/// Request to mark one URL as handled under a category.
pub struct MarkRequest {
    pub url: String,
    pub category: String,
}

/// Request completing a regeneration job.
pub struct CompleteItemRequest {
    pub audio_url: String,
    pub summary: String,
    pub duration_sec: Option<i64>,
    pub publish_time: i64,
}

/// One source link pushed alongside an item.
pub struct SourceItem {
    pub url: String,
    pub title: String,
    pub summary: String,
}

/// Request attaching source links to a stored item.
pub struct PushSourcesRequest {
    pub sources: Vec<SourceItem>,
}

/// An item as stored by the content store.
pub struct Item {
    pub id: String,
    pub title: String,
    pub summary: Option<String>,
    pub original_url: Option<String>,
    pub cover_image_url: Option<String>,
    pub audio_url: Option<String>,
    pub publish_time: Option<i64>,
    pub created_at: Option<i64>,
}

/// Request creating an item directly.
pub struct CreateItemRequest {
    pub title: String,
    pub summary: Option<String>,
    pub original_url: Option<String>,
    pub cover_image_url: Option<String>,
    pub audio_url: Option<String>,
    pub publish_time: Option<i64>,
}

/// Page selection for item listings.
pub struct Pagination {
    pub page: Option<i64>,
    pub limit: Option<i64>,
}

/// A stored source link of an item.
pub struct ItemSource {
    pub id: String,
    pub item_id: String,
    pub source_url: String,
    pub source_title: Option<String>,
    pub source_summary: Option<String>,
    pub created_at: Option<i64>,
}

} // verus!
