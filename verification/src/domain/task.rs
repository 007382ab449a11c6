//! The resolved mapping of one folder of one device: what is synchronised,
//! from where, to where, and where its manifest is kept.

use crate::config::{DeviceConfig, DeviceSpec, FolderConfig, FolderSpec, SyncMode};
use crate::context::{EnvSpec, ExecutionContext};
use crate::domain::index::{stored_bytes, Index, IndexError};
use crate::utils::paths::expanded_path;
use crate::utils::text::{lemma_filter_none, lemma_filter_step, str_eq};
use vstd::hash_set::StringHashSet;
use vstd::prelude::*;
use vstd::string::*;

verus! {

/// One folder of one device, resolved for a run. It is built anew on every
/// planning pass and never stored.
#[derive(Debug)]
pub struct SyncTask {
    pub device: DeviceConfig,
    pub folder: FolderConfig,
    /// Where the manifest of this mapping is kept.
    pub index_path: String,
    /// The directory that is read.
    pub source: String,
    /// The directory that is written.
    pub target: String,
    pub mode: SyncMode,
}

/// A task as contracts see it.
pub struct TaskSpec {
    pub device: DeviceSpec,
    pub folder: FolderSpec,
    pub index_path: Seq<char>,
    pub source: Seq<char>,
    pub target: Seq<char>,
    pub mode: SyncMode,
}

impl View for SyncTask {
    type V = TaskSpec;

    open spec fn view(&self) -> TaskSpec {
        TaskSpec {
            device: self.device@,
            folder: self.folder@,
            index_path: self.index_path@,
            source: self.source@,
            target: self.target@,
            mode: self.mode,
        }
    }
}

impl Clone for SyncTask {
    fn clone(&self) -> (r: Self)
        ensures
            r@ == self@,
    {
        SyncTask {
            device: self.device.clone(),
            folder: self.folder.clone(),
            index_path: self.index_path.clone(),
            source: self.source.clone(),
            target: self.target.clone(),
            mode: self.mode,
        }
    }
}

/// The tasks that a sequence of task values stands for.
pub open spec fn task_specs(tasks: Seq<SyncTask>) -> Seq<TaskSpec> {
    tasks.map_values(|t: SyncTask| t@)
}

/// Copies a list of tasks.
pub fn clone_tasks(tasks: &Vec<SyncTask>) -> (r: Vec<SyncTask>)
    ensures
        task_specs(r@) == task_specs(tasks@),
{
    let mut out: Vec<SyncTask> = Vec::new();
    let mut i: usize = 0;
    while i < tasks.len()
        invariant
            i <= tasks.len(),
            out.len() == i,
            forall|k: int| 0 <= k < i ==> out[k]@ == tasks[k]@,
        decreases tasks.len() - i,
    {
        out.push(tasks[i].clone());
        i += 1;
    }
    assert(task_specs(out@) =~= task_specs(tasks@));
    out
}

/// A task with the patterns of its source and target resolved for its device.
pub open spec fn expanded_task(env: EnvSpec, t: TaskSpec) -> TaskSpec {
    TaskSpec {
        source: expanded_path(env, t.source, t.device.name),
        target: expanded_path(env, t.target, t.device.name),
        ..t
    }
}

/// How a task is shown: device, state, source, target and manifest.
pub open spec fn shown_task(t: TaskSpec) -> Seq<char> {
    "["@ + t.device.name + " | "@ + (if t.folder.enabled {
        "enabled"@
    } else {
        "disabled"@
    }) + "] "@ + t.source + " \u{2192} "@ + t.target + " (index: "@ + t.index_path + ")"@
}

impl SyncTask {
    /// The task with the patterns of its source and target resolved in `ctx`.
    pub fn expanded(&self, ctx: &ExecutionContext) -> (r: Self)
        ensures
            r@ == expanded_task(ctx.expander.ctx@, self@),
    {
        SyncTask {
            device: self.device.clone(),
            folder: self.folder.clone(),
            index_path: self.index_path.clone(),
            source: ctx.expander.expand(self.source.as_str(), self.device.name.as_str()),
            target: ctx.expander.expand(self.target.as_str(), self.device.name.as_str()),
            mode: self.mode,
        }
    }

    /// Loads the manifest of the task from the bytes found at its manifest
    /// path (`None` where nothing is stored there), as [`Index::load`] does.
    pub fn load_index(&self, stored: Option<&[u8]>) -> (r: Result<Index, IndexError>)
        ensures
            exists|now: i64| #[trigger]
                Index::loaded(self.index_path@, stored_bytes(stored), now, r),
    {
        Index::load(self.index_path.as_str(), stored)
    }

    /// The text that shows the task.
    pub fn display(&self) -> (r: String)
        ensures
            r@ == shown_task(self@),
    {
        let mut out = String::from_str("[");
        out.append(self.device.name.as_str());
        out.append(" | ");
        if self.folder.enabled {
            out.append("enabled");
        } else {
            out.append("disabled");
        }
        out.append("] ");
        out.append(self.source.as_str());
        out.append(" \u{2192} ");
        out.append(self.target.as_str());
        out.append(" (index: ");
        out.append(self.index_path.as_str());
        out.append(")");
        out
    }
}

/// Selections from a list of tasks. Each keeps the order of the list.
pub trait SyncTaskFilter: Sized {
    /// The tasks of the list.
    spec fn listed(self) -> Seq<TaskSpec>;

    /// The tasks of the device with this name.
    fn filter_by_device(self, name: &str) -> (r: Vec<SyncTask>)
        ensures
            task_specs(r@) == self.listed().filter(|t: TaskSpec| t.device.name == name@),
    ;

    /// The tasks whose device's name is among `names`.
    fn filter_by_devices(self, names: &StringHashSet) -> (r: Vec<SyncTask>)
        ensures
            task_specs(r@) == self.listed().filter(|t: TaskSpec| names@.contains(t.device.name)),
    ;

    /// The tasks whose folder is enabled.
    fn filter_enabled(self) -> (r: Vec<SyncTask>)
        ensures
            task_specs(r@) == self.listed().filter(|t: TaskSpec| t.folder.enabled),
    ;
}

impl SyncTaskFilter for Vec<SyncTask> {
    open spec fn listed(self) -> Seq<TaskSpec> {
        task_specs(self@)
    }

    fn filter_by_device(self, name: &str) -> (r: Vec<SyncTask>) {
        let ghost all = task_specs(self@);
        let ghost keep = |t: TaskSpec| t.device.name == name@;
        let mut out: Vec<SyncTask> = Vec::new();
        let mut i: usize = 0;
        proof {
            lemma_filter_none(all.take(0), keep);
            assert(task_specs(out@) =~= all.take(0).filter(keep));
        }
        while i < self.len()
            invariant
                i <= self.len(),
                all == task_specs(self@),
                keep == (|t: TaskSpec| t.device.name == name@),
                task_specs(out@) == all.take(i as int).filter(keep),
            decreases self.len() - i,
        {
            let ghost before = task_specs(out@);
            proof {
                lemma_filter_step(all, keep, i as int);
            }
            if str_eq(self[i].device.name.as_str(), name) {
                out.push(self[i].clone());
                assert(task_specs(out@) =~= before.push(self[i as int]@));
            }
            i += 1;
        }
        assert(all.take(self.len() as int) =~= all);
        out
    }

    fn filter_by_devices(self, names: &StringHashSet) -> (r: Vec<SyncTask>) {
        let ghost all = task_specs(self@);
        let ghost keep = |t: TaskSpec| names@.contains(t.device.name);
        let mut out: Vec<SyncTask> = Vec::new();
        let mut i: usize = 0;
        proof {
            lemma_filter_none(all.take(0), keep);
            assert(task_specs(out@) =~= all.take(0).filter(keep));
        }
        while i < self.len()
            invariant
                i <= self.len(),
                all == task_specs(self@),
                keep == (|t: TaskSpec| names@.contains(t.device.name)),
                task_specs(out@) == all.take(i as int).filter(keep),
            decreases self.len() - i,
        {
            let ghost before = task_specs(out@);
            proof {
                lemma_filter_step(all, keep, i as int);
            }
            if names.contains(self[i].device.name.as_str()) {
                out.push(self[i].clone());
                assert(task_specs(out@) =~= before.push(self[i as int]@));
            }
            i += 1;
        }
        assert(all.take(self.len() as int) =~= all);
        out
    }

    fn filter_enabled(self) -> (r: Vec<SyncTask>) {
        let ghost all = task_specs(self@);
        let ghost keep = |t: TaskSpec| t.folder.enabled;
        let mut out: Vec<SyncTask> = Vec::new();
        let mut i: usize = 0;
        proof {
            lemma_filter_none(all.take(0), keep);
            assert(task_specs(out@) =~= all.take(0).filter(keep));
        }
        while i < self.len()
            invariant
                i <= self.len(),
                all == task_specs(self@),
                keep == (|t: TaskSpec| t.folder.enabled),
                task_specs(out@) == all.take(i as int).filter(keep),
            decreases self.len() - i,
        {
            let ghost before = task_specs(out@);
            proof {
                lemma_filter_step(all, keep, i as int);
            }
            if self[i].folder.enabled {
                out.push(self[i].clone());
                assert(task_specs(out@) =~= before.push(self[i as int]@));
            }
            i += 1;
        }
        assert(all.take(self.len() as int) =~= all);
        out
    }
}

/// Resolution of a whole list of tasks.
pub trait SyncTaskExpand: Sized {
    /// The tasks of the list.
    spec fn listed_tasks(self) -> Seq<TaskSpec>;

    /// Every task of the list, resolved in `ctx`, in the order of the list.
    fn expanded(self, ctx: &ExecutionContext) -> (r: Vec<SyncTask>)
        ensures
            task_specs(r@) == self.listed_tasks().map_values(
                |t: TaskSpec| expanded_task(ctx.expander.ctx@, t),
            ),
    ;
}

impl SyncTaskExpand for Vec<SyncTask> {
    open spec fn listed_tasks(self) -> Seq<TaskSpec> {
        task_specs(self@)
    }

    fn expanded(self, ctx: &ExecutionContext) -> (r: Vec<SyncTask>) {
        let mut out: Vec<SyncTask> = Vec::new();
        let mut i: usize = 0;
        while i < self.len()
            invariant
                i <= self.len(),
                out.len() == i,
                forall|k: int|
                    0 <= k < i ==> out[k]@ == expanded_task(ctx.expander.ctx@, self[k]@),
            decreases self.len() - i,
        {
            out.push(self[i].expanded(ctx));
            i += 1;
        }
        assert(task_specs(out@) =~= task_specs(self@).map_values(
            |t: TaskSpec| expanded_task(ctx.expander.ctx@, t),
        ));
        out
    }
}

} // verus!
