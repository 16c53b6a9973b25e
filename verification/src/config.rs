//! Configuration data of the pipeline and the synthesis client handle.
//! Loading these from a file is the embedding program's work; the library
//! only carries the values.
use vstd::prelude::*;

verus! {

/// Connection settings of the downstream content store.
pub struct NexusConfig {
    pub api_url: String,
    pub auth_key: String,
}

/// Settings of the generation collaborator.
pub struct LlmConfig {
    pub model: String,
    pub api_url: String,
}

/// Settings of the synthesis collaborator.
pub struct TtsConfig {
    pub model_path: String,
}

/// One syndicated source to poll.
pub struct SourceConfig {
    pub name: String,
    pub url: String,
    pub interval_min: u64,
    pub tags: Option<Vec<String>>,
}

/// The whole pipeline configuration.
pub struct Config {
    pub nexus: NexusConfig,
    pub llm: LlmConfig,
    pub tts: TtsConfig,
    pub sources: Vec<SourceConfig>,
}

/// A persona that hosts the episodes of its categories.
pub struct Host {
    pub name: String,
    pub voice: String,
    pub categories: Vec<String>,
}

/// The synthesis client: a handle around the model settings.  The
/// synthesis calls themselves are outside work performed by the embedding
/// program.
pub struct TtsClient {
    pub config: TtsConfig,
}

impl TtsClient {
    /// Wrap the synthesis settings.
    pub fn new(config: TtsConfig) -> (r: Self)
        ensures
            r.config == config,
    {
        TtsClient { config }
    }
}

/// The persona hosting a category: the first configured host whose
/// category list contains it.
pub fn find_host<'a>(hosts: &'a Vec<Host>, category: &str) -> (r: Option<&'a Host>)
    ensures
        match r {
            Some(h) => exists|i: int|
                0 <= i < hosts@.len() && h == &hosts@[i] && (exists|k: int|
                    0 <= k < hosts@[i].categories@.len() && (#[trigger] hosts@[i].categories@[k])@
                        == category@) && forall|j: int|
                    0 <= j < i ==> forall|k: int|
                        0 <= k < (#[trigger] hosts@[j]).categories@.len() ==> (
                        #[trigger] hosts@[j].categories@[k])@ != category@,
            None => forall|j: int|
                0 <= j < hosts@.len() ==> forall|k: int|
                    0 <= k < (#[trigger] hosts@[j]).categories@.len() ==> (
                    #[trigger] hosts@[j].categories@[k])@ != category@,
        },
{
    let cat = {
        let mut s = String::new();
        s.append(category);
        s
    };
    proof {
        assert(cat@ =~= category@);
    }
    let mut i: usize = 0;
    while i < hosts.len()
        invariant
            cat@ == category@,
            i <= hosts@.len(),
            forall|j: int|
                0 <= j < i ==> forall|k: int|
                    0 <= k < (#[trigger] hosts@[j]).categories@.len() ==> (
                    #[trigger] hosts@[j].categories@[k])@ != category@,
        decreases hosts@.len() - i,
    {
        let h = &hosts[i];
        let mut k: usize = 0;
        let mut hit = false;
        while k < h.categories.len() && !hit
            invariant
                cat@ == category@,
                i < hosts@.len(),
                h == &hosts@[i as int],
                k <= h.categories@.len(),
                hit ==> exists|m: int|
                    0 <= m < hosts@[i as int].categories@.len() && (
                    #[trigger] hosts@[i as int].categories@[m])@ == category@,
                !hit ==> forall|m: int|
                    0 <= m < k ==> (#[trigger] hosts@[i as int].categories@[m])@ != category@,
            decreases h.categories@.len() - k + if hit {
                0int
            } else {
                1int
            },
        {
            if h.categories[k] == cat {
                hit = true;
            } else {
                k = k + 1;
            }
        }
        if hit {
            return Some(h);
        }
        i = i + 1;
    }
    None
}

} // verus!
