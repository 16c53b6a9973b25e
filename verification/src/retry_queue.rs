//! Durable retry queue: a log of undelivered actions, replayed on a timer.
//!
//! Each enqueued action is kept under its own key until a sweep replays it
//! successfully; a failed replay leaves the entry for the next sweep.  The
//! embedding program performs the replays (they are network and file work)
//! and hands the per-entry outcomes back to `apply_sweep_results`, which
//! removes exactly the delivered entries and names the cached audio files
//! that may now be deleted.
use vstd::prelude::*;
use crate::external::fresh_id;
use crate::payload::{ItemPayload, PayloadV};

verus! {

/// An undelivered action, persisted until a replay succeeds.
pub enum RetryAction {
    UploadAudio { filename: String, file_path: String },
    PushItem(ItemPayload),
    MarkUrl { url: String, category: String },
}

/// Mathematical model of a retry action.
pub ghost enum ActionV {
    UploadAudio { filename: Seq<char>, file_path: Seq<char> },
    PushItem(PayloadV),
    MarkUrl { url: Seq<char>, category: Seq<char> },
}

impl View for RetryAction {
    type V = ActionV;

    open spec fn view(&self) -> ActionV {
        match self {
            RetryAction::UploadAudio { filename, file_path } => ActionV::UploadAudio {
                filename: filename@,
                file_path: file_path@,
            },
            RetryAction::PushItem(p) => ActionV::PushItem(p@),
            RetryAction::MarkUrl { url, category } => ActionV::MarkUrl {
                url: url@,
                category: category@,
            },
        }
    }
}

/// The queue entries that remain after a sweep whose per-entry outcomes are
/// `rs`: exactly the entries whose replay failed, in order.
pub open spec fn kept_after_sweep(
    q: Seq<(Seq<char>, ActionV)>,
    rs: Seq<bool>,
) -> Seq<(Seq<char>, ActionV)>
    decreases q.len(),
{
    if q.len() == 0 {
        Seq::empty()
    } else {
        let rest = kept_after_sweep(q.drop_last(), rs.take(q.len() - 1));
        if rs[q.len() - 1] {
            rest
        } else {
            rest.push(q.last())
        }
    }
}

/// The local files freed by a sweep: the cached audio of every upload
/// action whose replay succeeded, in order.
pub open spec fn freed_files(q: Seq<(Seq<char>, ActionV)>, rs: Seq<bool>) -> Seq<Seq<char>>
    decreases q.len(),
{
    if q.len() == 0 {
        Seq::empty()
    } else {
        let rest = freed_files(q.drop_last(), rs.take(q.len() - 1));
        if rs[q.len() - 1] {
            match q.last().1 {
                ActionV::UploadAudio { filename, file_path } => rest.push(file_path),
                _ => rest,
            }
        } else {
            rest
        }
    }
}

/// The durable queue of undelivered actions.
pub struct RetryManager {
    queue: Vec<(String, RetryAction)>,
}

impl View for RetryManager {
    type V = Seq<(Seq<char>, ActionV)>;

    closed spec fn view(&self) -> Seq<(Seq<char>, ActionV)> {
        self.queue@.map_values(|e: (String, RetryAction)| (e.0@, e.1@))
    }
}

impl RetryManager {
    /// An empty queue.
    pub fn new() -> (r: Self)
        ensures
            r@ =~= Seq::<(Seq<char>, ActionV)>::empty(),
    {
        RetryManager { queue: Vec::new() }
    }

    /// Persist an action under the given key.
    pub fn enqueue_with_id(&mut self, id: String, action: RetryAction)
        ensures
            final(self)@ == old(self)@.push((id@, action@)),
    {
        self.queue.push((id, action));
        proof {
            assert(self@ =~= old(self)@.push((self.queue@.last().0@, self.queue@.last().1@)));
        }
    }

    /// Persist an action under a fresh random key.
    pub fn enqueue(&mut self, action: RetryAction)
        ensures
            exists|id: Seq<char>| final(self)@ == old(self)@.push((id, action@)),
    {
        let id = fresh_id();
        self.enqueue_with_id(id, action);
    }

    /// How many actions are pending.
    pub fn len(&self) -> (n: usize)
        ensures
            n == self@.len(),
    {
        self.queue.len()
    }

    /// Borrow the pending action at an index, in sweep order.
    pub fn entry_at(&self, i: usize) -> (e: &(String, RetryAction))
        requires
            i < self@.len(),
        ensures
            (e.0@, e.1@) == self@[i as int],
    {
        &self.queue[i]
    }

    /// Digest one sweep: `results[i]` says whether replaying entry `i`
    /// succeeded.  Exactly the delivered entries leave the queue, and the
    /// cached audio paths of delivered uploads are returned for deletion.
    pub fn apply_sweep_results(&mut self, results: &Vec<bool>) -> (files: Vec<String>)
        requires
            results@.len() == old(self)@.len(),
        ensures
            final(self)@ == kept_after_sweep(old(self)@, results@),
            files@.map_values(|s: String| s@) == freed_files(old(self)@, results@),
    {
        let ghost old_model = self@;
        let mut kept: Vec<(String, RetryAction)> = Vec::new();
        let mut files: Vec<String> = Vec::new();
        let mut i: usize = 0;
        while i < self.queue.len()
            invariant
                old_model == old(self)@,
                self@ == old_model,
                results@.len() == old_model.len(),
                i <= self.queue@.len(),
                self@.len() == self.queue@.len(),
                kept@.map_values(|e: (String, RetryAction)| (e.0@, e.1@)) == kept_after_sweep(
                    self@.take(i as int),
                    results@.take(i as int),
                ),
                files@.map_values(|s: String| s@) == freed_files(
                    self@.take(i as int),
                    results@.take(i as int),
                ),
            decreases self.queue@.len() - i,
        {
            proof {
                assert(self@.take(i + 1).drop_last() =~= self@.take(i as int));
                assert(results@.take(i + 1).take(i as int) =~= results@.take(i as int));
                assert(self@.take(i + 1).last() == self@[i as int]);
                assert(results@.take(i + 1)[i as int] == results@[i as int]);
            }
            if results[i] {
                match &self.queue[i].1 {
                    RetryAction::UploadAudio { filename, file_path } => {
                        files.push(file_path.clone());
                        proof {
                            assert(files@.map_values(|s: String| s@) =~= freed_files(
                                self@.take(i + 1),
                                results@.take(i + 1),
                            ));
                        }
                    },
                    _ => {
                        proof {
                            assert(files@.map_values(|s: String| s@) =~= freed_files(
                                self@.take(i + 1),
                                results@.take(i + 1),
                            ));
                        }
                    },
                }
                proof {
                    assert(kept@.map_values(|e: (String, RetryAction)| (e.0@, e.1@))
                        =~= kept_after_sweep(self@.take(i + 1), results@.take(i + 1)));
                }
            } else {
                let id = self.queue[i].0.clone();
                let act = clone_action(&self.queue[i].1);
                kept.push((id, act));
                proof {
                    assert(kept@.map_values(|e: (String, RetryAction)| (e.0@, e.1@))
                        =~= kept_after_sweep(self@.take(i + 1), results@.take(i + 1)));
                    assert(files@.map_values(|s: String| s@) =~= freed_files(
                        self@.take(i + 1),
                        results@.take(i + 1),
                    ));
                }
            }
            i = i + 1;
        }
        proof {
            assert(self@.take(self@.len() as int) =~= self@);
            assert(results@.take(results@.len() as int) =~= results@);
        }
        self.queue = kept;
        files
    }
}

/// Clone a retry action; the copy models the same action.
pub fn clone_action(a: &RetryAction) -> (r: RetryAction)
    ensures
        r@ == a@,
{
    match a {
        RetryAction::UploadAudio { filename, file_path } => RetryAction::UploadAudio {
            filename: filename.clone(),
            file_path: file_path.clone(),
        },
        RetryAction::PushItem(p) => RetryAction::PushItem(p.clone()),
        RetryAction::MarkUrl { url, category } => RetryAction::MarkUrl {
            url: url.clone(),
            category: category.clone(),
        },
    }
}

} // verus!
