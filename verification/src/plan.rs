//! The allocation plan and the error taxonomy.
//!
//! Creating a sparse file of apparent size `n` takes at most three file
//! operations: open (create, truncating), and — only when `n > 0` — a seek
//! to offset `n - 1` followed by writing a single zero byte there. The plan
//! is that exact operation sequence; a front end carries it out in order and
//! stops at the first failure, which is classified by the operation that
//! failed.

use vstd::prelude::*;

verus! {

/// One file operation of an allocation plan.
#[derive(Clone, Copy, Debug, PartialEq, Eq, Structural)]
pub enum AllocAction {
    /// Open the target path for writing, creating it and truncating any
    /// existing content to length 0.
    Open,
    /// Move the write position to the given offset.
    Seek(u64),
    /// Write a single zero byte at the current position.
    WriteByte,
}

/// Why an allocation attempt failed, with the underlying OS message.
#[derive(Debug, PartialEq, Eq)]
pub enum ErrorKind {
    /// The target file could not be created or truncated.
    OpenFailed(String),
    /// The write position could not be moved.
    SeekFailed(String),
    /// The terminating byte could not be written.
    WriteFailed(String),
}

/// A failure before any filesystem call: the request itself is bad.
#[derive(Clone, Copy, Debug, PartialEq, Eq, Structural)]
pub enum ValidationError {
    /// The save directory field was blank.
    EmptyDirectory,
    /// The size field is not decimal text.
    NonNumericSize,
    /// The size parsed but is not strictly positive.
    NonPositiveSize,
}

/// The operation sequence that gives a file apparent length `size`:
/// open alone for an empty file, else open, seek to `size - 1`, and one
/// byte written there.
pub open spec fn spec_alloc_actions(size: u64) -> Seq<AllocAction> {
    if size == 0 {
        seq![AllocAction::Open]
    } else {
        seq![AllocAction::Open, AllocAction::Seek((size - 1) as u64), AllocAction::WriteByte]
    }
}

/// Build the allocation plan for a requested byte count. A zero-size
/// request plans no seek and no write: the truncating open is the whole
/// job.
pub fn alloc_actions(size_bytes: u64) -> (v: Vec<AllocAction>)
    ensures
        v@ == spec_alloc_actions(size_bytes),
{
    let mut v: Vec<AllocAction> = Vec::new();
    v.push(AllocAction::Open);
    if size_bytes > 0 {
        v.push(AllocAction::Seek(size_bytes - 1));
        v.push(AllocAction::WriteByte);
        proof {
            assert(v@ =~= spec_alloc_actions(size_bytes));
        }
    } else {
        proof {
            assert(v@ =~= spec_alloc_actions(size_bytes));
        }
    }
    v
}

/// Classify a failed operation: the failing step alone decides the error
/// kind, and the OS detail is carried through unchanged.
pub fn error_for_action(action: &AllocAction, detail: String) -> (e: ErrorKind)
    ensures
        e == match *action {
            AllocAction::Open => ErrorKind::OpenFailed(detail),
            AllocAction::Seek(_) => ErrorKind::SeekFailed(detail),
            AllocAction::WriteByte => ErrorKind::WriteFailed(detail),
        },
{
    match action {
        AllocAction::Open => ErrorKind::OpenFailed(detail),
        AllocAction::Seek(_) => ErrorKind::SeekFailed(detail),
        AllocAction::WriteByte => ErrorKind::WriteFailed(detail),
    }
}

/// Human-readable text of an allocation error.
pub open spec fn spec_error_message(e: ErrorKind) -> Seq<char> {
    match e {
        ErrorKind::OpenFailed(detail) => "failed to open the file: "@ + detail@,
        ErrorKind::SeekFailed(detail) => "failed to position the file cursor: "@ + detail@,
        ErrorKind::WriteFailed(detail) => "failed to write the file: "@ + detail@,
    }
}

impl ErrorKind {
    /// Render this error as its descriptive message.
    pub fn message(&self) -> (s: String)
        ensures
            s@ == spec_error_message(*self),
    {
        match self {
            ErrorKind::OpenFailed(detail) => {
                let mut s = "failed to open the file: ".to_owned();
                s.append(detail.as_str());
                s
            },
            ErrorKind::SeekFailed(detail) => {
                let mut s = "failed to position the file cursor: ".to_owned();
                s.append(detail.as_str());
                s
            },
            ErrorKind::WriteFailed(detail) => {
                let mut s = "failed to write the file: ".to_owned();
                s.append(detail.as_str());
                s
            },
        }
    }
}

/// Human-readable text of a validation error.
pub open spec fn spec_validation_message(e: ValidationError) -> Seq<char> {
    match e {
        ValidationError::EmptyDirectory => "error: the save directory must not be empty"@,
        ValidationError::NonNumericSize => "error: the file size must be a number"@,
        ValidationError::NonPositiveSize => "error: the file size must be greater than 0"@,
    }
}

impl ValidationError {
    /// Render this validation error as its descriptive message.
    pub fn message(&self) -> (s: String)
        ensures
            s@ == spec_validation_message(*self),
    {
        match self {
            ValidationError::EmptyDirectory => {
                "error: the save directory must not be empty".to_owned()
            },
            ValidationError::NonNumericSize => "error: the file size must be a number".to_owned(),
            ValidationError::NonPositiveSize => {
                "error: the file size must be greater than 0".to_owned()
            },
        }
    }
}

/// Outcome of one allocation attempt, as reported to the caller.
#[derive(Debug, PartialEq, Eq)]
pub enum AllocationResult {
    /// The file reached exactly the requested apparent length.
    Success,
    /// The attempt failed, with a descriptive message.
    Failure(String),
}

impl AllocationResult {
    /// The failed outcome that carries the error's message.
    pub fn of_error(e: &ErrorKind) -> (r: AllocationResult)
        ensures
            r matches AllocationResult::Failure(m) && m@ == spec_error_message(*e),
    {
        AllocationResult::Failure(e.message())
    }
}

} // verus!
