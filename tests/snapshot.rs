use pollwatch::{FileState, StatError, StatInfo, EPOCH_NANOS};

#[test]
fn same_kind_same_time_is_no_change() {
    let a = FileState::IsFile(1_000);
    let b = FileState::IsFile(1_000);
    assert!(!a.has_changed(&b));
    assert!(!FileState::NoPerm(EPOCH_NANOS).has_changed(&FileState::NoPerm(EPOCH_NANOS)));
}

#[test]
fn later_time_is_a_change() {
    assert!(FileState::IsFile(1_000).has_changed(&FileState::IsFile(1_001)));
    assert!(FileState::IsDir(-5).has_changed(&FileState::IsDir(3)));
}

#[test]
fn earlier_time_is_no_change() {
    assert!(!FileState::IsFile(2_000).has_changed(&FileState::IsFile(1_000)));
    assert!(!FileState::IsOther(7).has_changed(&FileState::IsOther(-7)));
}

#[test]
fn other_kind_is_a_change_whatever_the_times() {
    assert!(FileState::IsFile(9_000).has_changed(&FileState::Inexistent(EPOCH_NANOS)));
    assert!(FileState::IsDir(5).has_changed(&FileState::IsFile(5)));
    assert!(FileState::IsDir(5).has_changed(&FileState::NoPerm(EPOCH_NANOS)));
    assert!(FileState::Inexistent(EPOCH_NANOS).has_changed(&FileState::IsFile(-1)));
}

#[test]
fn similar_state_compares_kinds_only() {
    assert!(FileState::IsFile(1).has_similar_state(&FileState::IsFile(2)));
    assert!(!FileState::IsFile(1).has_similar_state(&FileState::IsDir(1)));
    assert!(!FileState::IsOther(0).has_similar_state(&FileState::Inexistent(0)));
}

#[test]
fn system_time_reads_the_timestamp() {
    assert_eq!(FileState::IsOther(42).system_time(), 42);
    assert_eq!(FileState::Inexistent(EPOCH_NANOS).system_time(), 0);
}

#[test]
fn stat_errors_become_states_at_the_epoch() {
    assert_eq!(FileState::of(Err(StatError::NotFound)), FileState::Inexistent(EPOCH_NANOS));
    assert_eq!(FileState::of(Err(StatError::PermissionDenied)), FileState::NoPerm(EPOCH_NANOS));
}

#[test]
fn stat_info_is_classified_by_kind() {
    let file = StatInfo { is_file: true, is_dir: false, modified: 77 };
    let dir = StatInfo { is_file: false, is_dir: true, modified: 78 };
    let other = StatInfo { is_file: false, is_dir: false, modified: 79 };
    assert_eq!(FileState::of(Ok(file)), FileState::IsFile(77));
    assert_eq!(FileState::of(Ok(dir)), FileState::IsDir(78));
    assert_eq!(FileState::of(Ok(other)), FileState::IsOther(79));
}
