//! One synchronisation of one folder pair: from the stored manifest and a
//! fresh scan to the steps that bring the target in line.

use crate::domain::diff::{compute_diff, deletions, uploads, Diff};
use crate::domain::index::{
    clone_files, encodable, entries, lemma_manifest_round_trip, manifest_bytes, parse_manifest,
    stored_bytes, total_bytes, total_size, unix_now, wrapped, FileEntry, Index, IndexError,
    IndexedFile, ManifestData, INDEX_VERSION,
};
use crate::domain::task::{SyncTask, TaskSpec};
use crate::sync::operations::{
    delete_batch, delete_steps, step_specs, upload_batch, upload_steps, StepSpec, SyncStep,
};
use crate::utils::human::SyncStats;
use crate::utils::text::texts;
use vstd::prelude::*;

verus! {

/// Whether writing into the target is tried before a synchronisation.
pub const TEST_WRITE: bool = true;

/// The size that `previous` holds for a path: that of its first entry with
/// the path.
pub open spec fn first_size(previous: Seq<FileEntry>, path: Seq<char>) -> Option<u64>
    decreases previous.len(),
{
    if previous.len() == 0 {
        None
    } else if previous.first().path == path {
        Some(previous.first().size)
    } else {
        first_size(previous.drop_first(), path)
    }
}

/// The sizes that `previous` holds for the paths, added up; a path that it
/// does not hold counts for nothing.
pub open spec fn deleted_bytes(paths: Seq<Seq<char>>, previous: Seq<FileEntry>) -> nat
    decreases paths.len(),
{
    if paths.len() == 0 {
        0
    } else {
        deleted_bytes(paths.drop_last(), previous) + match first_size(previous, paths.last()) {
            Some(s) => s as nat,
            None => 0,
        }
    }
}

/// The numbers of a diff against the listing `previous`.
pub open spec fn stats_of(
    to_upload: Seq<FileEntry>,
    to_delete: Seq<Seq<char>>,
    previous: Seq<FileEntry>,
) -> SyncStats {
    SyncStats {
        upload_count: to_upload.len() as usize,
        delete_count: to_delete.len() as usize,
        upload_bytes: wrapped(total_bytes(to_upload)),
        delete_bytes: wrapped(deleted_bytes(to_delete, previous)),
    }
}

fn size_of_path(previous: &[IndexedFile], path: &String) -> (r: Option<u64>)
    ensures
        r == first_size(entries(previous@), path@),
{
    let ghost all = entries(previous@);
    let mut i: usize = 0;
    assert(all.skip(0) =~= all);
    while i < previous.len()
        invariant
            i <= previous.len(),
            all == entries(previous@),
            first_size(all, path@) == first_size(all.skip(i as int), path@),
        decreases previous.len() - i,
    {
        proof {
            assert(all.skip(i as int).drop_first() =~= all.skip(i + 1));
            assert(all.skip(i as int).first() == all[i as int]);
        }
        if previous[i].path == *path {
            return Some(previous[i].size);
        }
        i += 1;
    }
    None
}

/// Counts what a diff uploads and deletes and adds up the bytes: those of
/// the files to upload, and those that `previous` holds for the paths to
/// delete. The totals keep their low 64 bits.
pub fn compute_sync_stats(diff: &Diff, previous: &[IndexedFile]) -> (r: SyncStats)
    ensures
        r == stats_of(entries(diff.to_upload@), texts(diff.to_delete@), entries(previous@)),
{
    let upload_bytes = total_size(&diff.to_upload);
    let ghost paths = texts(diff.to_delete@);
    let ghost prev = entries(previous@);
    let mut delete_bytes: u64 = 0;
    let mut i: usize = 0;
    assert(paths.take(0) =~= Seq::<Seq<char>>::empty());
    while i < diff.to_delete.len()
        invariant
            i <= diff.to_delete.len(),
            paths == texts(diff.to_delete@),
            prev == entries(previous@),
            delete_bytes == wrapped(deleted_bytes(paths.take(i as int), prev)),
        decreases diff.to_delete.len() - i,
    {
        proof {
            assert(paths.take(i + 1).drop_last() =~= paths.take(i as int));
            assert(paths.take(i + 1).last() == diff.to_delete[i as int]@);
        }
        match size_of_path(previous, &diff.to_delete[i]) {
            Some(size) => {
                let room = u64::MAX - delete_bytes;
                if size <= room {
                    delete_bytes = delete_bytes + size;
                } else {
                    delete_bytes = size - room - 1;
                }
            },
            None => {},
        }
        i += 1;
    }
    assert(paths.take(diff.to_delete.len() as int) =~= paths);
    SyncStats::new(diff.to_upload.len(), diff.to_delete.len(), upload_bytes, delete_bytes)
}

/// What one synchronisation is to do.
pub struct SyncPlan {
    /// Whether no manifest was stored yet.
    pub first_run: bool,
    /// What differs between the fresh scan and the stored manifest.
    pub diff: Diff,
    /// The numbers of the diff.
    pub stats: SyncStats,
    /// The steps to carry out, in this order; the first that fails ends the
    /// synchronisation.
    pub steps: Vec<SyncStep>,
}

/// The manifest that a synchronisation starts from: the stored one, or,
/// where none is stored, an empty one of the current version.
pub open spec fn starting_manifest(stored: Option<Seq<u8>>, now: i64) -> Result<
    ManifestData,
    IndexError,
> {
    match stored {
        None => Ok(ManifestData { version: INDEX_VERSION, generated_at: now, files: Seq::empty() }),
        Some(bytes) => parse_manifest(bytes),
    }
}

/// The manifest that a synchronisation leaves behind: the fresh scan,
/// stamped with the time of the synchronisation.
pub open spec fn fresh_manifest(previous: ManifestData, local: Seq<FileEntry>, now: i64)
    -> ManifestData {
    ManifestData { version: previous.version, generated_at: now, files: local }
}

/// The step that stores the fresh manifest of a task.
pub open spec fn save_step(
    task: TaskSpec,
    previous: ManifestData,
    local: Seq<FileEntry>,
    now: i64,
) -> StepSpec {
    StepSpec::SaveManifest {
        path: task.index_path,
        bytes: manifest_bytes(fresh_manifest(previous, local, now)),
    }
}

/// The steps that bring the target in line, once the baseline is settled:
/// none where nothing differs; else the uploads, then the deletions, then
/// the storing of the fresh manifest.
pub open spec fn work_steps(
    task: TaskSpec,
    previous: ManifestData,
    local: Seq<FileEntry>,
    now: i64,
) -> Seq<StepSpec> {
    let up = uploads(local, previous.files);
    let del = deletions(local, previous.files);
    if up.len() == 0 && del.len() == 0 {
        Seq::empty()
    } else {
        upload_steps(task.source, task.target, up) + delete_steps(task.target, del) + seq![
            save_step(task, previous, local, now),
        ]
    }
}

/// The steps of a synchronisation. On a first run the fresh scan is stored
/// as the baseline before anything else; then follows the work.
pub open spec fn planned_steps(
    task: TaskSpec,
    previous: ManifestData,
    first_run: bool,
    local: Seq<FileEntry>,
    now: i64,
) -> Seq<StepSpec> {
    let baseline = if first_run {
        seq![save_step(task, previous, local, now)]
    } else {
        Seq::empty()
    };
    baseline + work_steps(task, previous, local, now)
}

/// Whether `r` is the plan for `task` at the time `now`, given the bytes
/// stored as its manifest and the fresh scan `local`: a stored manifest
/// that cannot be read fails the synchronisation with the reason; else the
/// plan holds the diff of the scan against the manifest, its numbers, and
/// the steps.
pub open spec fn is_plan_for(
    task: TaskSpec,
    stored: Option<Seq<u8>>,
    local: Seq<FileEntry>,
    now: i64,
    r: Result<SyncPlan, IndexError>,
) -> bool {
    match starting_manifest(stored, now) {
        Err(e) => r matches Err(f) && f == e,
        Ok(previous) => r matches Ok(plan) && {
            &&& plan.first_run == (stored is None)
            &&& entries(plan.diff.to_upload@) == uploads(local, previous.files)
            &&& texts(plan.diff.to_delete@) == deletions(local, previous.files)
            &&& plan.stats == stats_of(
                uploads(local, previous.files),
                deletions(local, previous.files),
                previous.files,
            )
            &&& step_specs(plan.steps@) == planned_steps(
                task,
                previous,
                stored is None,
                local,
                now,
            )
        },
    }
}

/// Plans the synchronisation of `task` at the time `now`, from the bytes
/// stored as its manifest (`None` on a first run) and the fresh scan of its
/// source.
pub fn sync_folder_at(
    task: &SyncTask,
    stored: Option<&[u8]>,
    local_files: &Vec<IndexedFile>,
    now: i64,
) -> (r: Result<SyncPlan, IndexError>)
    ensures
        is_plan_for(task@, stored_bytes(stored), entries(local_files@), now, r),
{
    let mut idx = match Index::load_at(task.index_path.as_str(), stored, now) {
        Ok(idx) => idx,
        Err(e) => {
            return Err(e);
        },
    };
    let ghost previous = idx@;
    let ghost local = entries(local_files@);
    let diff = compute_diff(local_files.as_slice(), idx.files.as_slice());
    let stats = compute_sync_stats(&diff, idx.files.as_slice());
    let first_run = !idx.exists_on_disk();
    let nothing = diff.to_upload.len() == 0 && diff.to_delete.len() == 0;
    let mut steps: Vec<SyncStep> = Vec::new();
    if first_run {
        let bytes = idx.update_at(clone_files(local_files), now);
        steps.push(SyncStep::SaveManifest { path: task.index_path.clone(), bytes });
    }
    let ghost baseline = step_specs(steps@);
    proof {
        assert(baseline =~= if first_run {
            seq![save_step(task@, previous, local, now)]
        } else {
            Seq::<StepSpec>::empty()
        });
    }
    if !nothing {
        let mut copies = upload_batch(
            task.source.as_str(),
            task.target.as_str(),
            diff.to_upload.as_slice(),
        );
        let mut removals = delete_batch(task.target.as_str(), diff.to_delete.as_slice());
        let ghost copy_specs = step_specs(copies@);
        let ghost removal_specs = step_specs(removals@);
        steps.append(&mut copies);
        steps.append(&mut removals);
        let bytes = idx.update_at(clone_files(local_files), now);
        steps.push(SyncStep::SaveManifest { path: task.index_path.clone(), bytes });
        proof {
            assert(step_specs(steps@) =~= baseline + (copy_specs + removal_specs + seq![
                save_step(task@, previous, local, now),
            ]));
        }
    } else {
        proof {
            assert(step_specs(steps@) =~= baseline + Seq::<StepSpec>::empty());
        }
    }
    Ok(SyncPlan { first_run, diff, stats, steps })
}

/// Plans the synchronisation of `task` as [`sync_folder_at`] does, at the
/// time that the system clock gives.
pub fn sync_folder(task: &SyncTask, stored: Option<&[u8]>, local_files: &Vec<IndexedFile>) -> (r:
    Result<SyncPlan, IndexError>)
    ensures
        exists|now: i64| #[trigger]
            is_plan_for(task@, stored_bytes(stored), entries(local_files@), now, r),
{
    let now = unix_now();
    sync_folder_at(task, stored, local_files, now)
}

/// Within one synchronisation every upload comes before every deletion.
pub proof fn lemma_uploads_precede_deletions(
    task: TaskSpec,
    previous: ManifestData,
    first_run: bool,
    local: Seq<FileEntry>,
    now: i64,
    i: int,
    j: int,
)
    requires
        0 <= i < planned_steps(task, previous, first_run, local, now).len(),
        0 <= j < planned_steps(task, previous, first_run, local, now).len(),
        planned_steps(task, previous, first_run, local, now)[i] is Copy,
        planned_steps(task, previous, first_run, local, now)[j] is Remove,
    ensures
        i < j,
{
}

/// Where there is work, the fresh manifest is stored last, after every
/// upload and every deletion, and what is stored reads back as the fresh
/// scan.
pub proof fn lemma_manifest_is_committed_last(
    task: TaskSpec,
    previous: ManifestData,
    first_run: bool,
    local: Seq<FileEntry>,
    now: i64,
)
    requires
        uploads(local, previous.files).len() > 0 || deletions(local, previous.files).len() > 0,
        encodable(fresh_manifest(previous, local, now)),
    ensures
        planned_steps(task, previous, first_run, local, now).last() == save_step(
            task,
            previous,
            local,
            now,
        ),
        parse_manifest(manifest_bytes(fresh_manifest(previous, local, now))) == Ok::<
            ManifestData,
            IndexError,
        >(fresh_manifest(previous, local, now)),
{
    lemma_manifest_round_trip(fresh_manifest(previous, local, now), Seq::empty());
    assert(manifest_bytes(fresh_manifest(previous, local, now)) + Seq::<u8>::empty()
        =~= manifest_bytes(fresh_manifest(previous, local, now)));
}

/// On a first run the first step stores the fresh scan as the baseline, at
/// the task's manifest path, and what is stored reads back as the fresh
/// scan; where the scan found nothing, that is the only step.
pub proof fn lemma_first_run_stores_baseline(task: TaskSpec, local: Seq<FileEntry>, now: i64)
    requires
        encodable(ManifestData { version: INDEX_VERSION, generated_at: now, files: local }),
    ensures
        ({
            let previous = starting_manifest(None, now)->Ok_0;
            let steps = planned_steps(task, previous, true, local, now);
            &&& steps.len() > 0
            &&& steps[0] == StepSpec::SaveManifest {
                path: task.index_path,
                bytes: manifest_bytes(fresh_manifest(previous, local, now)),
            }
            &&& parse_manifest(manifest_bytes(fresh_manifest(previous, local, now))) == Ok::<
                ManifestData,
                IndexError,
            >(ManifestData { version: INDEX_VERSION, generated_at: now, files: local })
            &&& local.len() == 0 ==> steps.len() == 1
        }),
{
    let previous = starting_manifest(None, now)->Ok_0;
    let fresh = fresh_manifest(previous, local, now);
    lemma_manifest_round_trip(fresh, Seq::empty());
    assert(manifest_bytes(fresh) + Seq::<u8>::empty() =~= manifest_bytes(fresh));
    if local.len() == 0 {
        reveal(Seq::filter);
        assert(uploads(local, previous.files) =~= Seq::<FileEntry>::empty());
        assert(deletions(local, previous.files) =~= Seq::<Seq<char>>::empty());
    }
}

/// Where a manifest is stored and the scan matches it, nothing is done.
pub proof fn lemma_nothing_to_do(task: TaskSpec, previous: ManifestData, local: Seq<FileEntry>, now: i64)
    requires
        uploads(local, previous.files).len() == 0,
        deletions(local, previous.files).len() == 0,
    ensures
        planned_steps(task, previous, false, local, now) == Seq::<StepSpec>::empty(),
{
    assert(planned_steps(task, previous, false, local, now) =~= Seq::<StepSpec>::empty());
}

/// A synchronisation under way: its steps, how many of them are done, and
/// whether one failed.
pub struct SyncRun {
    pub steps: Vec<SyncStep>,
    /// How many steps, from the first on, have succeeded.
    pub done: usize,
    /// Whether the step after those failed.
    pub failed: bool,
}

impl SyncRun {
    /// Whether no more than all steps are done.
    pub open spec fn wf(&self) -> bool {
        self.done <= self.steps.len()
    }

    /// How many of the first `n` steps are copies.
    pub open spec fn copies_among(steps: Seq<StepSpec>, n: int) -> nat
        decreases n,
    {
        if n <= 0 {
            0
        } else {
            SyncRun::copies_among(steps, n - 1) + if steps[n - 1] is Copy {
                1nat
            } else {
                0nat
            }
        }
    }

    /// How many of the first `n` steps are removals.
    pub open spec fn removals_among(steps: Seq<StepSpec>, n: int) -> nat
        decreases n,
    {
        if n <= 0 {
            0
        } else {
            SyncRun::removals_among(steps, n - 1) + if steps[n - 1] is Remove {
                1nat
            } else {
                0nat
            }
        }
    }

    /// A run of `steps` of which none is done yet.
    pub fn new(steps: Vec<SyncStep>) -> (r: SyncRun)
        ensures
            r.steps == steps,
            r.done == 0,
            !r.failed,
            r.wf(),
    {
        SyncRun { steps, done: 0, failed: false }
    }

    /// The place of the step to carry out next: the first that is not done,
    /// unless a step failed or all are done.
    pub fn next(&self) -> (r: Option<usize>)
        requires
            self.wf(),
        ensures
            r == if self.failed || self.done == self.steps.len() {
                None::<usize>
            } else {
                Some(self.done)
            },
    {
        if self.failed || self.done == self.steps.len() {
            None
        } else {
            Some(self.done)
        }
    }

    /// Records the outcome of the step that was due. A failure ends the
    /// run: no step after it is handed out.
    pub fn record(&mut self, ok: bool)
        requires
            old(self).wf(),
        ensures
            final(self).wf(),
            final(self).steps == old(self).steps,
            final(self).done == if !old(self).failed && old(self).done < old(self).steps.len() && ok {
                old(self).done + 1
            } else {
                old(self).done as int
            },
            final(self).failed == (old(self).failed || (old(self).done < old(self).steps.len()
                && !ok)),
    {
        if self.failed || self.done == self.steps.len() {
            return ;
        }
        if ok {
            self.done = self.done + 1;
        } else {
            self.failed = true;
        }
    }

    /// Whether every step succeeded.
    pub fn completed(&self) -> (r: bool)
        requires
            self.wf(),
        ensures
            r == (!self.failed && self.done == self.steps.len()),
    {
        !self.failed && self.done == self.steps.len()
    }

    /// How many files were copied and how many paths were removed so far.
    pub fn counts(&self) -> (r: (usize, usize))
        requires
            self.wf(),
        ensures
            r.0 == SyncRun::copies_among(step_specs(self.steps@), self.done as int),
            r.1 == SyncRun::removals_among(step_specs(self.steps@), self.done as int),
    {
        let mut copied: usize = 0;
        let mut removed: usize = 0;
        let mut i: usize = 0;
        while i < self.done
            invariant
                i <= self.done <= self.steps.len(),
                copied <= i,
                removed <= i,
                copied == SyncRun::copies_among(step_specs(self.steps@), i as int),
                removed == SyncRun::removals_among(step_specs(self.steps@), i as int),
            decreases self.done - i,
        {
            match &self.steps[i] {
                SyncStep::Copy { .. } => {
                    copied = copied + 1;
                },
                SyncStep::Remove { .. } => {
                    removed = removed + 1;
                },
                SyncStep::SaveManifest { .. } => {},
            }
            i += 1;
        }
        (copied, removed)
    }
}

} // verus!
