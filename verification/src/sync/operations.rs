//! The file operations that a synchronisation consists of.

use crate::domain::index::{entries, FileEntry, IndexedFile};
use crate::utils::paths::{join_path, joined};
use crate::utils::text::texts;
use vstd::prelude::*;

verus! {

/// One step of a synchronisation, to be carried out on the file system.
#[derive(Debug)]
pub enum SyncStep {
    /// Store these bytes as the manifest at `path`, replacing what is there
    /// in one move.
    SaveManifest { path: String, bytes: Vec<u8> },
    /// Copy the file `from` to `to`, creating the directories above `to`.
    Copy { from: String, to: String },
    /// Remove the file at `path` if there is one.
    Remove { path: String },
}

/// A step as contracts see it.
pub enum StepSpec {
    SaveManifest { path: Seq<char>, bytes: Seq<u8> },
    Copy { from: Seq<char>, to: Seq<char> },
    Remove { path: Seq<char> },
}

impl View for SyncStep {
    type V = StepSpec;

    open spec fn view(&self) -> StepSpec {
        match *self {
            SyncStep::SaveManifest { path, bytes } => StepSpec::SaveManifest {
                path: path@,
                bytes: bytes@,
            },
            SyncStep::Copy { from, to } => StepSpec::Copy { from: from@, to: to@ },
            SyncStep::Remove { path } => StepSpec::Remove { path: path@ },
        }
    }
}

/// The steps that a sequence of step values stands for.
pub open spec fn step_specs(steps: Seq<SyncStep>) -> Seq<StepSpec> {
    steps.map_values(|s: SyncStep| s@)
}

/// The copy of one file from below `source` to the same place below `target`.
pub open spec fn copy_step(source: Seq<char>, target: Seq<char>, f: FileEntry) -> StepSpec {
    StepSpec::Copy { from: joined(source, f.path), to: joined(target, f.path) }
}

/// The removal of one path below `target`.
pub open spec fn remove_step(target: Seq<char>, rel: Seq<char>) -> StepSpec {
    StepSpec::Remove { path: joined(target, rel) }
}

/// The copies that upload `files` from `source` to `target`: one for each
/// file, in their order.
pub open spec fn upload_steps(source: Seq<char>, target: Seq<char>, files: Seq<FileEntry>) -> Seq<
    StepSpec,
> {
    files.map_values(|f: FileEntry| copy_step(source, target, f))
}

/// The removals that delete `paths` below `target`: one for each path, in
/// their order.
pub open spec fn delete_steps(target: Seq<char>, paths: Seq<Seq<char>>) -> Seq<StepSpec> {
    paths.map_values(|p: Seq<char>| remove_step(target, p))
}

/// Plans the upload of `files` from `source` to `target`.
pub fn upload_batch(source: &str, target: &str, files: &[IndexedFile]) -> (r: Vec<SyncStep>)
    ensures
        step_specs(r@) == upload_steps(source@, target@, entries(files@)),
{
    let mut out: Vec<SyncStep> = Vec::new();
    let mut i: usize = 0;
    while i < files.len()
        invariant
            i <= files.len(),
            out.len() == i,
            forall|k: int| 0 <= k < i ==> out[k]@ == copy_step(source@, target@, files[k]@),
        decreases files.len() - i,
    {
        let rel = files[i].path.as_str();
        out.push(SyncStep::Copy { from: join_path(source, rel), to: join_path(target, rel) });
        i += 1;
    }
    assert(step_specs(out@) =~= upload_steps(source@, target@, entries(files@)));
    out
}

/// Plans the deletion of `paths` below `target`.
pub fn delete_batch(target: &str, paths: &[String]) -> (r: Vec<SyncStep>)
    ensures
        step_specs(r@) == delete_steps(target@, texts(paths@)),
{
    let mut out: Vec<SyncStep> = Vec::new();
    let mut i: usize = 0;
    while i < paths.len()
        invariant
            i <= paths.len(),
            out.len() == i,
            forall|k: int| 0 <= k < i ==> out[k]@ == remove_step(target@, paths[k]@),
        decreases paths.len() - i,
    {
        out.push(SyncStep::Remove { path: join_path(target, paths[i].as_str()) });
        i += 1;
    }
    assert(step_specs(out@) =~= delete_steps(target@, texts(paths@)));
    out
}

} // verus!
