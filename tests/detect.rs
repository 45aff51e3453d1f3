use pollwatch::{dedup_targets, process_changed_files, FileState, WatchState, EPOCH_NANOS};

fn names(v: &[&str]) -> Vec<String> {
    v.iter().map(|s| s.to_string()).collect()
}

#[test]
fn modified_file_is_reported_and_stored() {
    let t0: i128 = 1_700_000_000_000_000_000;
    let t1: i128 = t0 + 5_000_000;
    let mut w = WatchState::new(names(&["a.txt"]), vec![FileState::IsFile(t0)]);
    let r = process_changed_files(&mut w, &vec![FileState::IsFile(t1)]);
    assert_eq!(r, Some(names(&["a.txt"])));
    assert_eq!(w.state(0), FileState::IsFile(t1));
    assert_eq!(w.target(0), "a.txt");
    assert_eq!(w.len(), 1);
}

#[test]
fn missing_path_stays_quiet() {
    let gone = FileState::Inexistent(EPOCH_NANOS);
    let mut w = WatchState::new(names(&["missing.txt"]), vec![gone]);
    for _ in 0..25 {
        assert_eq!(process_changed_files(&mut w, &vec![gone]), None);
        assert_eq!(w.state(0), gone);
    }
}

#[test]
fn second_pass_without_change_is_empty() {
    let mut w = WatchState::new(
        names(&["a", "b", "c"]),
        vec![FileState::IsFile(10), FileState::IsDir(20), FileState::Inexistent(EPOCH_NANOS)],
    );
    let now = vec![FileState::IsFile(11), FileState::IsDir(20), FileState::IsFile(30)];
    assert_eq!(process_changed_files(&mut w, &now), Some(names(&["a", "c"])));
    assert_eq!(process_changed_files(&mut w, &now), None);
    assert_eq!(process_changed_files(&mut w, &now), None);
}

#[test]
fn unchanged_filesystem_is_empty_both_times() {
    let base = vec![FileState::IsFile(10), FileState::NoPerm(EPOCH_NANOS)];
    let mut w = WatchState::new(names(&["a", "b"]), base.clone());
    assert_eq!(process_changed_files(&mut w, &base), None);
    assert_eq!(process_changed_files(&mut w, &base), None);
    assert_eq!(w.state(0), FileState::IsFile(10));
}

#[test]
fn delete_then_recreate_is_reported_twice() {
    let mut w = WatchState::new(names(&["f"]), vec![FileState::IsFile(100)]);
    let gone = vec![FileState::Inexistent(EPOCH_NANOS)];
    assert_eq!(process_changed_files(&mut w, &gone), Some(names(&["f"])));
    assert_eq!(w.state(0), FileState::Inexistent(EPOCH_NANOS));
    assert_eq!(process_changed_files(&mut w, &gone), None);
    let back = vec![FileState::IsFile(50)];
    assert_eq!(process_changed_files(&mut w, &back), Some(names(&["f"])));
    assert_eq!(w.state(0), FileState::IsFile(50));
    assert_eq!(process_changed_files(&mut w, &back), None);
}

#[test]
fn revoked_permission_is_reported_once() {
    let mut w = WatchState::new(names(&["dir"]), vec![FileState::IsDir(300)]);
    assert_eq!(process_changed_files(&mut w, &vec![FileState::IsDir(300)]), None);
    let denied = vec![FileState::NoPerm(EPOCH_NANOS)];
    assert_eq!(process_changed_files(&mut w, &denied), Some(names(&["dir"])));
    assert_eq!(w.state(0), FileState::NoPerm(EPOCH_NANOS));
    for _ in 0..10 {
        assert_eq!(process_changed_files(&mut w, &denied), None);
    }
}

#[test]
fn backward_time_is_not_stored() {
    let mut w = WatchState::new(names(&["a"]), vec![FileState::IsFile(500)]);
    assert_eq!(process_changed_files(&mut w, &vec![FileState::IsFile(400)]), None);
    assert_eq!(w.state(0), FileState::IsFile(500));
    assert_eq!(process_changed_files(&mut w, &vec![FileState::IsFile(450)]), None);
    assert_eq!(process_changed_files(&mut w, &vec![FileState::IsFile(501)]), Some(names(&["a"])));
}

#[test]
fn every_target_is_compared_in_one_pass() {
    let mut w = WatchState::new(
        names(&["x", "y", "z"]),
        vec![FileState::IsFile(1), FileState::IsFile(1), FileState::IsFile(1)],
    );
    let now = vec![FileState::IsDir(1), FileState::IsFile(1), FileState::IsOther(1)];
    assert_eq!(process_changed_files(&mut w, &now), Some(names(&["x", "z"])));
    assert_eq!(w.state(0), FileState::IsDir(1));
    assert_eq!(w.state(1), FileState::IsFile(1));
    assert_eq!(w.state(2), FileState::IsOther(1));
}

#[test]
fn repeated_targets_are_dropped() {
    let d = dedup_targets(&names(&["a", "b", "a", "c", "b", "a"]));
    assert_eq!(d, names(&["a", "b", "c"]));
    assert_eq!(dedup_targets(&names(&[])), names(&[]));
    assert_eq!(dedup_targets(&names(&["only"])), names(&["only"]));
}
