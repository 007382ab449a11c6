//! Checks made before a synchronisation: the source can be read, the target
//! can be written.

use vstd::prelude::*;
use vstd::string::*;

verus! {

/// Why a folder pair cannot be synchronised.
#[derive(Debug, Clone, Copy, PartialEq, Eq, Structural)]
pub enum ValidationError {
    /// The source path does not exist.
    SourceMissing,
    /// The source path exists but is no directory.
    SourceNotDirectory,
    /// The target directory is missing and could not be created.
    TargetNotCreated,
    /// Nothing can be written into the target directory.
    TargetNotWritable,
}

impl ValidationError {
    /// What is wrong, without the path.
    pub open spec fn reason(self) -> Seq<char> {
        match self {
            ValidationError::SourceMissing => "Source path does not exist"@,
            ValidationError::SourceNotDirectory => "Source path is not a directory"@,
            ValidationError::TargetNotCreated => "Failed to create target directory"@,
            ValidationError::TargetNotWritable => "Target is not writable"@,
        }
    }

    /// The message for this error at `path`: the reason, a colon, the path.
    pub fn message(&self, path: &str) -> (r: String)
        ensures
            r@ == self.reason() + ": "@ + path@,
    {
        let mut out = String::from_str(
            match self {
                ValidationError::SourceMissing => "Source path does not exist",
                ValidationError::SourceNotDirectory => "Source path is not a directory",
                ValidationError::TargetNotCreated => "Failed to create target directory",
                ValidationError::TargetNotWritable => "Target is not writable",
            },
        );
        out.append(": ");
        out.append(path);
        out
    }
}

/// What was found at a path.
#[derive(Debug, Clone, Copy, PartialEq, Eq, Structural)]
pub struct PathState {
    pub exists: bool,
    pub is_dir: bool,
}

/// Judges a source by what was found at its path: it must exist and be a
/// directory.
pub fn validate_source(source: &PathState) -> (r: Result<(), ValidationError>)
    ensures
        r == if !source.exists {
            Err::<(), ValidationError>(ValidationError::SourceMissing)
        } else if !source.is_dir {
            Err::<(), ValidationError>(ValidationError::SourceNotDirectory)
        } else {
            Ok::<(), ValidationError>(())
        },
{
    if !source.exists {
        return Err(ValidationError::SourceMissing);
    }
    if !source.is_dir {
        return Err(ValidationError::SourceNotDirectory);
    }
    Ok(())
}

/// What is to be done next for a target.
#[derive(Debug, Clone, Copy, PartialEq, Eq)]
pub enum TargetStep {
    /// Create the target directory and the directories above it.
    CreateDirectories,
    /// Write a marker file into the target directory and remove it again.
    TestWrite,
    /// Nothing more: the target is judged.
    Finished(Result<(), ValidationError>),
}

/// The check of a target, as far as it has come. Whoever runs it asks for
/// the next step, carries it out and records whether it succeeded, until
/// the step is `Finished`.
#[derive(Debug, Clone, Copy, PartialEq, Eq)]
pub struct TargetCheck {
    /// Whether the target existed when the check began.
    pub exists: bool,
    /// Whether writing is to be tried.
    pub test_write: bool,
    /// Whether creating the directories succeeded, once it was tried.
    pub created: Option<bool>,
    /// Whether the write succeeded, once it was tried.
    pub probed: Option<bool>,
}

impl TargetCheck {
    /// The step that is due. A missing target is created first; a target
    /// that could not be created is given up. Writing is tried where it was
    /// asked for, and a target that cannot be written is refused.
    pub open spec fn next_step(self) -> TargetStep {
        match (self.exists, self.created) {
            (false, None) => TargetStep::CreateDirectories,
            (false, Some(false)) => TargetStep::Finished(Err(ValidationError::TargetNotCreated)),
            _ => match (self.test_write, self.probed) {
                (true, None) => TargetStep::TestWrite,
                (true, Some(false)) => TargetStep::Finished(
                    Err(ValidationError::TargetNotWritable),
                ),
                _ => TargetStep::Finished(Ok(())),
            },
        }
    }

    /// The check after the outcome `ok` of the step that was due. Once the
    /// check is finished nothing changes any more.
    pub open spec fn recorded(self, ok: bool) -> TargetCheck {
        match self.next_step() {
            TargetStep::CreateDirectories => TargetCheck { created: Some(ok), ..self },
            TargetStep::TestWrite => TargetCheck { probed: Some(ok), ..self },
            TargetStep::Finished(_) => self,
        }
    }

    /// The step that is due.
    pub fn step(&self) -> (r: TargetStep)
        ensures
            r == self.next_step(),
    {
        if !self.exists {
            match self.created {
                None => {
                    return TargetStep::CreateDirectories;
                },
                Some(false) => {
                    return TargetStep::Finished(Err(ValidationError::TargetNotCreated));
                },
                Some(true) => {},
            }
        }
        if self.test_write {
            match self.probed {
                None => {
                    return TargetStep::TestWrite;
                },
                Some(false) => {
                    return TargetStep::Finished(Err(ValidationError::TargetNotWritable));
                },
                Some(true) => {},
            }
        }
        TargetStep::Finished(Ok(()))
    }

    /// Records whether the step that was due succeeded.
    pub fn record(&mut self, ok: bool)
        ensures
            *final(self) == old(self).recorded(ok),
    {
        match self.step() {
            TargetStep::CreateDirectories => {
                self.created = Some(ok);
            },
            TargetStep::TestWrite => {
                self.probed = Some(ok);
            },
            TargetStep::Finished(_) => {},
        }
    }
}

/// Begins the check of a target that exists or not, with or without a
/// test of writing.
pub fn validate_target(exists: bool, test_write: bool) -> (r: TargetCheck)
    ensures
        r == (TargetCheck { exists, test_write, created: None, probed: None }),
{
    TargetCheck { exists, test_write, created: None, probed: None }
}

/// Judges the source, and where it is in order begins the check of the
/// target. A source that is refused leaves the target untouched.
pub fn validate_sync_paths(source: &PathState, target_exists: bool, test_write: bool) -> (r: Result<
    TargetCheck,
    ValidationError,
>)
    ensures
        r == if !source.exists {
            Err::<TargetCheck, ValidationError>(ValidationError::SourceMissing)
        } else if !source.is_dir {
            Err::<TargetCheck, ValidationError>(ValidationError::SourceNotDirectory)
        } else {
            Ok::<TargetCheck, ValidationError>(
                TargetCheck { exists: target_exists, test_write, created: None, probed: None },
            )
        },
{
    match validate_source(source) {
        Ok(()) => Ok(validate_target(target_exists, test_write)),
        Err(e) => Err(e),
    }
}

/// A target is judged after at most two steps, whatever their outcomes.
pub proof fn lemma_target_check_ends(check: TargetCheck, first: bool, second: bool)
    requires
        check.created is None,
        check.probed is None,
    ensures
        check.recorded(first).recorded(second).next_step() is Finished,
{
}

/// A target is accepted exactly when every step that was due succeeded:
/// the directories were created where they were missing, and the write went
/// through where it was asked for.
pub proof fn lemma_target_accepted(check: TargetCheck)
    ensures
        (match check.next_step() {
            TargetStep::Finished(r) => r is Ok,
            _ => false,
        }) == ((check.exists || check.created == Some(true)) && (!check.test_write || check.probed
            == Some(true))),
{
}

} // verus!
