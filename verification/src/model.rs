//! A model of sparse-file semantics, and proof that the allocation plan
//! reaches exactly the requested apparent length.
//!
//! The model keeps what standard file-truncation and seek semantics
//! guarantee: a truncating open empties the file, a seek moves the write
//! position (past the end is allowed), and writing one byte at position `p`
//! advances the position and extends the apparent length to `p + 1` if the
//! file was shorter. Physical block allocation is beneath this model — only
//! the apparent length is claimed.

use crate::plan::{spec_alloc_actions, AllocAction};
use vstd::prelude::*;

verus! {

/// Apparent state of the target file: its reported length and the write
/// position of the open handle.
#[derive(Clone, Copy, Debug, PartialEq, Eq, Structural)]
pub struct SparseFile {
    /// Reported (apparent) length in bytes.
    pub len: u64,
    /// Current write position.
    pub pos: u64,
}

/// Effect of one file operation on the apparent file state.
///
/// A write at position `u64::MAX` would wrap in this model; the executable
/// `apply_action` excludes it, and no allocation plan reaches it (a plan's
/// seek offset is at most `u64::MAX - 1`).
pub open spec fn spec_apply(f: SparseFile, a: AllocAction) -> SparseFile {
    match a {
        AllocAction::Open => SparseFile { len: 0, pos: 0 },
        AllocAction::Seek(offset) => SparseFile { len: f.len, pos: offset },
        AllocAction::WriteByte => SparseFile {
            len: if f.pos + 1 > f.len {
                (f.pos + 1) as u64
            } else {
                f.len
            },
            pos: (f.pos + 1) as u64,
        },
    }
}

/// Effect of an operation sequence, applied in order.
pub open spec fn spec_run(f: SparseFile, actions: Seq<AllocAction>) -> SparseFile
    decreases actions.len(),
{
    if actions.len() == 0 {
        f
    } else {
        spec_run(spec_apply(f, actions[0]), actions.drop_first())
    }
}

/// Apply one file operation to a modelled file state.
pub fn apply_action(f: SparseFile, a: &AllocAction) -> (g: SparseFile)
    requires
        *a is WriteByte ==> f.pos < u64::MAX,
    ensures
        g == spec_apply(f, *a),
{
    match a {
        AllocAction::Open => SparseFile { len: 0, pos: 0 },
        AllocAction::Seek(offset) => SparseFile { len: f.len, pos: *offset },
        AllocAction::WriteByte => {
            let new_pos = f.pos + 1;
            SparseFile {
                len: if new_pos > f.len {
                    new_pos
                } else {
                    f.len
                },
                pos: new_pos,
            }
        },
    }
}

/// Run the allocation plan for `size_bytes` on a fresh model file and
/// return the resulting state: its apparent length is exactly the request.
pub fn run_plan_model(start: SparseFile, size_bytes: u64) -> (f: SparseFile)
    ensures
        f == spec_run(start, spec_alloc_actions(size_bytes)),
        f.len == size_bytes,
{
    proof {
        lemma_plan_reaches_target(start, size_bytes);
    }
    let opened = apply_action(start, &AllocAction::Open);
    if size_bytes == 0 {
        proof {
            let plan = spec_alloc_actions(size_bytes);
            assert(plan[0] == AllocAction::Open);
            assert(plan.drop_first() =~= Seq::<AllocAction>::empty());
            assert(spec_run(start, plan) == spec_run(opened, plan.drop_first()));
            assert(spec_run(opened, plan.drop_first()) == opened);
        }
        opened
    } else {
        let sought = apply_action(opened, &AllocAction::Seek(size_bytes - 1));
        let written = apply_action(sought, &AllocAction::WriteByte);
        proof {
            lemma_unfold_plan(start, size_bytes);
        }
        written
    }
}

/// Unfolds the three-step run for a positive request down to single
/// applications.
proof fn lemma_unfold_plan(f: SparseFile, size: u64)
    requires
        size > 0,
    ensures
        spec_run(f, spec_alloc_actions(size)) == spec_apply(
            spec_apply(spec_apply(f, AllocAction::Open), AllocAction::Seek((size - 1) as u64)),
            AllocAction::WriteByte,
        ),
{
    let plan = spec_alloc_actions(size);
    let tail = plan.drop_first();
    let tail2 = tail.drop_first();
    let s1 = spec_apply(f, AllocAction::Open);
    let s2 = spec_apply(s1, AllocAction::Seek((size - 1) as u64));
    let s3 = spec_apply(s2, AllocAction::WriteByte);
    assert(plan[0] == AllocAction::Open);
    assert(spec_run(f, plan) == spec_run(s1, tail));
    assert(tail[0] == AllocAction::Seek((size - 1) as u64));
    assert(spec_run(s1, tail) == spec_run(s2, tail2));
    assert(tail2[0] == AllocAction::WriteByte);
    assert(tail2.drop_first() =~= Seq::<AllocAction>::empty());
    assert(spec_run(s2, tail2) == spec_run(s3, tail2.drop_first()));
    assert(spec_run(s3, tail2.drop_first()) == s3);
}

/// Law: running the allocation plan for `size` brings the file to apparent
/// length exactly `size`, from any starting state. For a zero-size request
/// the plan holds no seek and no write: the truncating open alone leaves
/// the file at length 0.
pub proof fn lemma_plan_reaches_target(f: SparseFile, size: u64)
    ensures
        spec_run(f, spec_alloc_actions(size)).len == size,
        size == 0 ==> spec_alloc_actions(size) == seq![AllocAction::Open],
{
    if size == 0 {
        let plan = spec_alloc_actions(size);
        let s1 = spec_apply(f, AllocAction::Open);
        assert(plan[0] == AllocAction::Open);
        assert(plan.drop_first() =~= Seq::<AllocAction>::empty());
        assert(spec_run(f, plan) == spec_run(s1, plan.drop_first()));
        assert(spec_run(s1, plan.drop_first()) == s1);
    } else {
        lemma_unfold_plan(f, size);
    }
}

/// Law: allocation is idempotent. Running the plan a second time over the
/// file the first run produced leaves the apparent length at `size` both
/// times: the second open truncates and the file is rebuilt to the same
/// length.
pub proof fn lemma_plan_idempotent(f: SparseFile, size: u64)
    ensures
        spec_run(f, spec_alloc_actions(size)).len == size,
        spec_run(spec_run(f, spec_alloc_actions(size)), spec_alloc_actions(size)).len == size,
{
    lemma_plan_reaches_target(f, size);
    lemma_plan_reaches_target(spec_run(f, spec_alloc_actions(size)), size);
}

} // verus!
