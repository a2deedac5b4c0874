use file_creator::model::{apply_action, run_plan_model, SparseFile};
use file_creator::plan::{alloc_actions, error_for_action, AllocAction, AllocationResult, ErrorKind};

#[test]
fn zero_size_plans_open_only() {
    let plan = alloc_actions(0);
    assert_eq!(plan, vec![AllocAction::Open]);
}

#[test]
fn positive_size_plans_open_seek_write() {
    let plan = alloc_actions(1048576);
    assert_eq!(
        plan,
        vec![AllocAction::Open, AllocAction::Seek(1048575), AllocAction::WriteByte]
    );
}

#[test]
fn one_byte_seeks_to_offset_zero() {
    let plan = alloc_actions(1);
    assert_eq!(
        plan,
        vec![AllocAction::Open, AllocAction::Seek(0), AllocAction::WriteByte]
    );
}

#[test]
fn model_zero_size_gives_empty_file() {
    let start = SparseFile { len: 77, pos: 12 };
    let f = run_plan_model(start, 0);
    assert_eq!(f.len, 0);
}

#[test]
fn model_reaches_exact_length() {
    let start = SparseFile { len: 0, pos: 0 };
    let f = run_plan_model(start, 1048576);
    assert_eq!(f.len, 1048576);
    assert_eq!(f.pos, 1048576);
}

#[test]
fn model_truncates_a_longer_file() {
    let start = SparseFile { len: 999999999, pos: 5 };
    let f = run_plan_model(start, 1024);
    assert_eq!(f.len, 1024);
}

#[test]
fn model_allocation_is_idempotent() {
    let start = SparseFile { len: 0, pos: 0 };
    let once = run_plan_model(start, 4096);
    assert_eq!(once.len, 4096);
    let twice = run_plan_model(once, 4096);
    assert_eq!(twice.len, 4096);
}

#[test]
fn open_truncates_and_rewinds() {
    let f = apply_action(SparseFile { len: 10, pos: 4 }, &AllocAction::Open);
    assert_eq!(f, SparseFile { len: 0, pos: 0 });
}

#[test]
fn seek_past_end_is_allowed() {
    let f = apply_action(SparseFile { len: 0, pos: 0 }, &AllocAction::Seek(1023));
    assert_eq!(f, SparseFile { len: 0, pos: 1023 });
}

#[test]
fn write_extends_to_position_plus_one() {
    let f = apply_action(SparseFile { len: 0, pos: 1023 }, &AllocAction::WriteByte);
    assert_eq!(f, SparseFile { len: 1024, pos: 1024 });
}

#[test]
fn write_inside_file_keeps_length() {
    let f = apply_action(SparseFile { len: 100, pos: 3 }, &AllocAction::WriteByte);
    assert_eq!(f, SparseFile { len: 100, pos: 4 });
}

#[test]
fn failed_open_is_classified_open_failed() {
    let e = error_for_action(&AllocAction::Open, "permission denied".to_string());
    assert_eq!(e, ErrorKind::OpenFailed("permission denied".to_string()));
}

#[test]
fn failed_seek_is_classified_seek_failed() {
    let e = error_for_action(&AllocAction::Seek(7), "io error".to_string());
    assert_eq!(e, ErrorKind::SeekFailed("io error".to_string()));
}

#[test]
fn failed_write_is_classified_write_failed() {
    let e = error_for_action(&AllocAction::WriteByte, "disk full".to_string());
    assert_eq!(e, ErrorKind::WriteFailed("disk full".to_string()));
}

#[test]
fn error_messages_carry_the_detail() {
    let e = ErrorKind::OpenFailed("no such directory".to_string());
    assert_eq!(e.message(), "failed to open the file: no such directory");
    let e = ErrorKind::SeekFailed("device fault".to_string());
    assert_eq!(e.message(), "failed to position the file cursor: device fault");
    let e = ErrorKind::WriteFailed("quota exceeded".to_string());
    assert_eq!(e.message(), "failed to write the file: quota exceeded");
}

#[test]
fn failure_result_carries_the_message() {
    let e = ErrorKind::OpenFailed("denied".to_string());
    let r = AllocationResult::of_error(&e);
    assert_eq!(r, AllocationResult::Failure("failed to open the file: denied".to_string()));
}
