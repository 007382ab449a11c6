//! The engine that runs synchronisations, one at a time, and finds the
//! tasks that a file system event concerns.

use crate::domain::task::{task_specs, SyncTask, TaskSpec};
use crate::sync::watcher::{EventSpec, FsEvent};
use crate::utils::paths::{path_starts_with, starts_with_path};
use crate::utils::text::{lemma_filter_none, lemma_filter_step};
use vstd::prelude::*;

verus! {

/// The engine. It holds the one flag that says whether a synchronisation
/// is under way, for the whole process and all tasks.
#[derive(Debug, Clone, Copy, PartialEq, Eq, Structural)]
pub struct SyncEngine {
    /// Whether a synchronisation is under way.
    pub syncing: bool,
}

/// The tasks that an event concerns: those whose source is a prefix of the
/// event's first path, in the order of `active`. An event without a path
/// concerns none.
pub open spec fn matching(event: EventSpec, active: Seq<TaskSpec>) -> Seq<TaskSpec> {
    if event.paths.len() == 0 {
        Seq::empty()
    } else {
        active.filter(|t: TaskSpec| path_starts_with(event.paths[0], t.source))
    }
}

impl SyncEngine {
    /// Whether a request is given leave: exactly when no synchronisation
    /// is under way.
    pub open spec fn gives_leave(self) -> bool {
        !self.syncing
    }

    /// The engine after a request, granted or not: a synchronisation is
    /// under way.
    pub open spec fn requested(self) -> SyncEngine {
        SyncEngine { syncing: true }
    }

    /// The engine after the end of a synchronisation.
    pub open spec fn finished(self) -> SyncEngine {
        SyncEngine { syncing: false }
    }

    /// An engine that is not synchronising.
    pub fn new() -> (r: Self)
        ensures
            !r.syncing,
    {
        SyncEngine { syncing: false }
    }

    /// Asks for leave to synchronise `task`. Leave is given exactly when no
    /// synchronisation is under way; the engine then counts as synchronising
    /// until [`SyncEngine::finish`] is called. A request that comes while a
    /// synchronisation is under way is turned down and not queued.
    pub fn sync_config(&mut self, task: &SyncTask) -> (started: bool)
        ensures
            started == old(self).gives_leave(),
            *final(self) == old(self).requested(),
    {
        if self.syncing {
            return false;
        }
        self.syncing = true;
        true
    }

    /// Ends the synchronisation that is under way.
    pub fn finish(&mut self)
        ensures
            *final(self) == old(self).finished(),
    {
        self.syncing = false;
    }

    /// The tasks among `active` that `event` concerns.
    pub fn match_event(&self, event: &FsEvent, active: &[SyncTask]) -> (r: Vec<SyncTask>)
        ensures
            task_specs(r@) == matching(event@, task_specs(active@)),
    {
        let mut out: Vec<SyncTask> = Vec::new();
        if event.paths.len() == 0 {
            assert(task_specs(out@) =~= Seq::<TaskSpec>::empty());
            return out;
        }
        let path = event.paths[0].as_str();
        let ghost all = task_specs(active@);
        let ghost keep = |t: TaskSpec| path_starts_with(event@.paths[0], t.source);
        let mut i: usize = 0;
        proof {
            lemma_filter_none(all.take(0), keep);
            assert(task_specs(out@) =~= all.take(0).filter(keep));
        }
        while i < active.len()
            invariant
                i <= active.len(),
                all == task_specs(active@),
                event.paths.len() > 0,
                path@ == event@.paths[0],
                keep == (|t: TaskSpec| path_starts_with(event@.paths[0], t.source)),
                task_specs(out@) == all.take(i as int).filter(keep),
            decreases active.len() - i,
        {
            let ghost before = task_specs(out@);
            proof {
                lemma_filter_step(all, keep, i as int);
            }
            if starts_with_path(path, active[i].source.as_str()) {
                out.push(active[i].clone());
                assert(task_specs(out@) =~= before.push(active[i as int]@));
            }
            i += 1;
        }
        assert(all.take(active.len() as int) =~= all);
        out
    }
}

/// A synchronisation never starts while another is under way: after a
/// request, granted or not, every further request is turned down until the
/// synchronisation has ended; the first request after that is granted.
pub proof fn lemma_one_sync_at_a_time(engine: SyncEngine)
    ensures
        !engine.requested().gives_leave(),
        !engine.requested().requested().gives_leave(),
        engine.requested().finished().gives_leave(),
{
}

} // verus!
