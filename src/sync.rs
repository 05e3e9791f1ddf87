//! The order of work within one feed: each due episode goes through its
//! stages one after another; a failure stops the feed; hooks are joined
//! before the feed is reported.
use vstd::prelude::*;

verus! {

/// A stage of one episode's pipeline.
#[derive(Clone, Copy, Debug, PartialEq, Eq, Structural)]
pub enum Stage {
    /// Fetch the enclosure into its partial file and promote it.
    Download,
    /// Write tags into the file; failure is logged and ignored.
    Tag,
    /// Rename the file to its final name.
    Rename,
    /// Link the file into the symlink directory.
    Symlink,
    /// Start the download hook; it is not waited for here.
    Hook,
    /// Append the episode to the ledger.
    Record,
}

/// What the runner of a feed is to do next.
#[derive(Clone, Copy, Debug, PartialEq, Eq, Structural)]
pub enum SyncAction {
    /// Run `stage` for the episode at position `episode` of the feed.
    Run { episode: usize, stage: Stage },
    /// Wait for every hook started so far.
    JoinHooks,
    /// Report the feed as synced.
    Complete,
    /// Report the feed as failed.
    Fail,
}

/// Whether a failure of `s` stops the feed.
pub open spec fn is_fatal(s: Stage) -> bool {
    s is Download || s is Rename || s is Symlink || s is Record
}

/// The stage after `s`, where there is one, skipping the symlink and hook
/// stages where they are not configured.
pub open spec fn stage_after(s: Stage, symlink: bool, hook: bool) -> Option<Stage> {
    match s {
        Stage::Download => Some(Stage::Tag),
        Stage::Tag => Some(Stage::Rename),
        Stage::Rename => if symlink {
            Some(Stage::Symlink)
        } else if hook {
            Some(Stage::Hook)
        } else {
            Some(Stage::Record)
        },
        Stage::Symlink => if hook {
            Some(Stage::Hook)
        } else {
            Some(Stage::Record)
        },
        Stage::Hook => Some(Stage::Record),
        Stage::Record => None,
    }
}

/// The sync of one feed: the positions of its due episodes in the order they
/// are fetched, how far it has come, and whether it failed or joined its
/// hooks.
#[derive(Clone, Debug)]
pub struct FeedSync {
    pub queue: Vec<usize>,
    pub pos: usize,
    pub stage: Stage,
    pub symlink: bool,
    pub hook: bool,
    pub failed: bool,
    pub joined: bool,
}

/// The action a sync state asks for.
pub open spec fn action_of(st: FeedSync) -> SyncAction {
    if !st.failed && st.pos < st.queue@.len() {
        SyncAction::Run { episode: st.queue@[st.pos as int], stage: st.stage }
    } else if !st.joined {
        SyncAction::JoinHooks
    } else if st.failed {
        SyncAction::Fail
    } else {
        SyncAction::Complete
    }
}

/// The state after the action of `st` was carried out with outcome `ok`.
pub open spec fn step_of(st: FeedSync, ok: bool) -> FeedSync {
    if !st.failed && st.pos < st.queue@.len() {
        if !ok && is_fatal(st.stage) {
            FeedSync { failed: true, ..st }
        } else {
            match stage_after(st.stage, st.symlink, st.hook) {
                Some(s) => FeedSync { stage: s, ..st },
                None => FeedSync { pos: (st.pos + 1) as usize, stage: Stage::Download, ..st },
            }
        }
    } else if !st.joined {
        FeedSync { joined: true, ..st }
    } else {
        st
    }
}

impl FeedSync {
    /// A sync that fetches the episodes at the positions of `queue`, in that
    /// order.
    pub fn new(queue: Vec<usize>, symlink: bool, hook: bool) -> (r: FeedSync)
        ensures
            r.queue == queue,
            r.pos == 0,
            r.stage == Stage::Download,
            r.symlink == symlink,
            r.hook == hook,
            !r.failed,
            !r.joined,
    {
        FeedSync { queue, pos: 0, stage: Stage::Download, symlink, hook, failed: false, joined: false }
    }

    /// What to do next.
    pub fn action(&self) -> (r: SyncAction)
        ensures
            r == action_of(*self),
    {
        if !self.failed && self.pos < self.queue.len() {
            SyncAction::Run { episode: self.queue[self.pos], stage: self.stage }
        } else if !self.joined {
            SyncAction::JoinHooks
        } else if self.failed {
            SyncAction::Fail
        } else {
            SyncAction::Complete
        }
    }

    /// The action asked for was carried out with outcome `ok`.
    pub fn on_result(&mut self, ok: bool)
        ensures
            final(self).queue == old(self).queue,
            final(self).symlink == old(self).symlink,
            final(self).hook == old(self).hook,
            final(self).pos == step_of(*old(self), ok).pos,
            final(self).stage == step_of(*old(self), ok).stage,
            final(self).failed == step_of(*old(self), ok).failed,
            final(self).joined == step_of(*old(self), ok).joined,
    {
        if !self.failed && self.pos < self.queue.len() {
            if !ok && (self.stage == Stage::Download || self.stage == Stage::Rename || self.stage
                == Stage::Symlink || self.stage == Stage::Record) {
                self.failed = true;
            } else {
                let next = match self.stage {
                    Stage::Download => Some(Stage::Tag),
                    Stage::Tag => Some(Stage::Rename),
                    Stage::Rename => if self.symlink {
                        Some(Stage::Symlink)
                    } else if self.hook {
                        Some(Stage::Hook)
                    } else {
                        Some(Stage::Record)
                    },
                    Stage::Symlink => if self.hook {
                        Some(Stage::Hook)
                    } else {
                        Some(Stage::Record)
                    },
                    Stage::Hook => Some(Stage::Record),
                    Stage::Record => None,
                };
                match next {
                    Some(s) => {
                        self.stage = s;
                    },
                    None => {
                        self.pos = self.pos + 1;
                        self.stage = Stage::Download;
                    },
                }
            }
        } else if !self.joined {
            self.joined = true;
        }
    }
}

/// The state after a run of outcomes.
pub open spec fn run_of(st: FeedSync, oks: Seq<bool>) -> FeedSync
    decreases oks.len(),
{
    if oks.len() == 0 {
        st
    } else {
        step_of(run_of(st, oks.drop_last()), oks.last())
    }
}

/// The ledger is asked to record an episode only right after that episode's
/// rename, symlink or hook stage, and only where that stage succeeded (a
/// hook is started, not waited for, so its outcome does not count); once a stage that stops the feed fails, no
/// stage of any episode runs again.
pub proof fn lemma_record_after_success(st: FeedSync, ok: bool, oks: Seq<bool>)
    ensures
        (action_of(step_of(st, ok)) matches SyncAction::Run { stage: Stage::Record, .. }) ==> {
            &&& action_of(st) matches SyncAction::Run { stage: s, .. }
            &&& stage_after(s, st.symlink, st.hook) == Some(Stage::Record)
            &&& (s is Hook || s is Symlink || s is Rename)
            &&& (ok || s is Hook)
        },
        st.failed ==> !(action_of(run_of(st, oks)) is Run),
        (action_of(st) is Complete || action_of(st) is Fail) ==> st.joined,
        !st.joined ==> (step_of(st, ok).joined ==> action_of(st) is JoinHooks),
    decreases oks.len(),
{
    if oks.len() > 0 {
        lemma_record_after_success(st, ok, oks.drop_last());
    }
}

/// Whether every outcome of a run is a success.
pub open spec fn all_ok(oks: Seq<bool>) -> bool {
    forall|i: int| 0 <= i < oks.len() ==> #[trigger] oks[i]
}

/// A feed's sync works through its queue in order: whatever the outcomes,
/// the episode a stage runs for is the queue's entry at a position that
/// never decreases, so only queued episodes are fetched or recorded, one
/// after another in queue order; and where every outcome is a success the
/// feed never fails.
pub proof fn lemma_runs_follow_queue(st: FeedSync, oks: Seq<bool>)
    requires
        st.pos == 0,
        !st.failed,
        !st.joined,
        st.stage == Stage::Download,
        st.queue@.len() <= usize::MAX,
    ensures
        run_of(st, oks).queue == st.queue,
        run_of(st, oks).pos <= st.queue@.len(),
        action_of(run_of(st, oks)) matches SyncAction::Run { episode, .. } ==> episode
            == st.queue@[run_of(st, oks).pos as int],
        oks.len() > 0 ==> run_of(st, oks.drop_last()).pos <= run_of(st, oks).pos,
        all_ok(oks) ==> !run_of(st, oks).failed,
    decreases oks.len(),
{
    if oks.len() > 0 {
        let init = oks.drop_last();
        lemma_runs_follow_queue(st, init);
        if all_ok(oks) {
            assert forall|i: int| 0 <= i < init.len() implies #[trigger] init[i] by {
                assert(init[i] == oks[i]);
            }
            assert(oks[oks.len() - 1] == oks.last());
        }
    }
}

} // verus!
