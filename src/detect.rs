//! The table of watched paths and the polling pass that finds changes.
use vstd::prelude::*;

use crate::command::string_views;
use crate::snapshot::FileState;

verus! {

/// The paths that a pass reports, in table order: the `i`-th path (for
/// `i < n`) is reported when its stored state changed to `current[i]`.
pub open spec fn changed_prefix(
    targets: Seq<Seq<char>>,
    stored: Seq<FileState>,
    current: Seq<FileState>,
    n: int,
) -> Seq<Seq<char>>
    decreases n,
{
    if n <= 0 {
        Seq::empty()
    } else {
        let before = changed_prefix(targets, stored, current, n - 1);
        if stored[n - 1].changed_to(current[n - 1]) {
            before.push(targets[n - 1])
        } else {
            before
        }
    }
}

/// All the paths that a pass over the whole table reports.
pub open spec fn changed_targets(
    targets: Seq<Seq<char>>,
    stored: Seq<FileState>,
    current: Seq<FileState>,
) -> Seq<Seq<char>> {
    changed_prefix(targets, stored, current, targets.len() as int)
}

/// The stored states after a pass: each changed entry takes its new state,
/// every other entry keeps the stored one.
pub open spec fn next_states(stored: Seq<FileState>, current: Seq<FileState>) -> Seq<FileState> {
    Seq::new(
        stored.len(),
        |i: int| if stored[i].changed_to(current[i]) {
            current[i]
        } else {
            stored[i]
        },
    )
}

/// With no entry changed among the first `n`, those entries report nothing.
proof fn lemma_nothing_changed_nothing_listed(
    targets: Seq<Seq<char>>,
    stored: Seq<FileState>,
    current: Seq<FileState>,
    n: int,
)
    requires
        forall|j: int| 0 <= j < n ==> !#[trigger] stored[j].changed_to(current[j]),
    ensures
        changed_prefix(targets, stored, current, n).len() == 0,
    decreases n,
{
    if n > 0 {
        lemma_nothing_changed_nothing_listed(targets, stored, current, n - 1);
    }
}

/// A changed entry among the first `n` has its path in the report.
proof fn lemma_changed_is_listed(
    targets: Seq<Seq<char>>,
    stored: Seq<FileState>,
    current: Seq<FileState>,
    n: int,
    i: int,
)
    requires
        0 <= i < n,
        stored[i].changed_to(current[i]),
    ensures
        changed_prefix(targets, stored, current, n).contains(targets[i]),
    decreases n,
{
    let before = changed_prefix(targets, stored, current, n - 1);
    if i == n - 1 {
        assert(before.push(targets[i])[before.len() as int] == targets[i]);
    } else {
        lemma_changed_is_listed(targets, stored, current, n - 1, i);
        let k = choose|k: int| 0 <= k < before.len() && before[k] == targets[i];
        if stored[n - 1].changed_to(current[n - 1]) {
            assert(before.push(targets[n - 1])[k] == targets[i]);
        }
    }
}

/// A pass over states that match the stored ones reports nothing and keeps
/// the table as it is; and right after any pass, a second pass over the same
/// observations reports nothing.
pub proof fn lemma_repeated_pass_quiet(
    targets: Seq<Seq<char>>,
    stored: Seq<FileState>,
    current: Seq<FileState>,
)
    requires
        targets.len() == stored.len(),
        stored.len() == current.len(),
    ensures
        changed_targets(targets, stored, stored).len() == 0,
        next_states(stored, stored) == stored,
        changed_targets(targets, next_states(stored, current), current).len() == 0,
        next_states(next_states(stored, current), current) == next_states(stored, current),
{
    let after = next_states(stored, current);
    lemma_nothing_changed_nothing_listed(targets, stored, stored, targets.len() as int);
    assert forall|j: int| 0 <= j < targets.len() implies !#[trigger] after[j].changed_to(
        current[j],
    ) by {}
    lemma_nothing_changed_nothing_listed(targets, after, current, targets.len() as int);
    assert(next_states(stored, stored) =~= stored);
    assert(next_states(after, current) =~= after);
}

/// Over distinct paths, the report repeats no path, and each reported path
/// is one of the first `n`.
proof fn lemma_listed_distinct(
    targets: Seq<Seq<char>>,
    stored: Seq<FileState>,
    current: Seq<FileState>,
    n: int,
)
    requires
        targets.no_duplicates(),
        0 <= n <= targets.len(),
    ensures
        changed_prefix(targets, stored, current, n).no_duplicates(),
        forall|x: Seq<char>|
            #![trigger changed_prefix(targets, stored, current, n).contains(x)]
            changed_prefix(targets, stored, current, n).contains(x) ==> exists|j: int|
                0 <= j < n && targets[j] == x,
    decreases n,
{
    if n > 0 {
        lemma_listed_distinct(targets, stored, current, n - 1);
        let before = changed_prefix(targets, stored, current, n - 1);
        let t = targets[n - 1];
        if before.contains(t) {
            let j = choose|j: int| 0 <= j < n - 1 && targets[j] == t;
            assert(targets[j] == targets[n - 1]);
        }
        if stored[n - 1].changed_to(current[n - 1]) {
            let now = before.push(t);
            assert forall|x: Seq<char>| now.contains(x) implies exists|j: int|
                0 <= j < n && targets[j] == x by {
                let k = choose|k: int| 0 <= k < now.len() && now[k] == x;
                if k < before.len() {
                    assert(before[k] == x);
                    assert(before.contains(x));
                } else {
                    assert(targets[n - 1] == x);
                }
            }
        }
    }
}

/// A path that goes from a regular file to missing and back to a regular
/// file is reported by both passes, once each, and after each pass its
/// stored state is the one just observed.
pub proof fn lemma_delete_recreate_reported(
    targets: Seq<Seq<char>>,
    stored: Seq<FileState>,
    deleted: Seq<FileState>,
    recreated: Seq<FileState>,
    i: int,
)
    requires
        targets.len() == stored.len(),
        targets.no_duplicates(),
        stored.len() == deleted.len(),
        deleted.len() == recreated.len(),
        0 <= i < targets.len(),
        stored[i] is IsFile,
        deleted[i] is Inexistent,
        recreated[i] is IsFile,
    ensures
        changed_targets(targets, stored, deleted).contains(targets[i]),
        changed_targets(targets, stored, deleted).no_duplicates(),
        next_states(stored, deleted)[i] == deleted[i],
        changed_targets(targets, next_states(stored, deleted), recreated).contains(targets[i]),
        changed_targets(targets, next_states(stored, deleted), recreated).no_duplicates(),
        next_states(next_states(stored, deleted), recreated)[i] == recreated[i],
{
    let after = next_states(stored, deleted);
    lemma_listed_distinct(targets, stored, deleted, targets.len() as int);
    lemma_listed_distinct(targets, after, recreated, targets.len() as int);
    lemma_changed_is_listed(targets, stored, deleted, targets.len() as int, i);
    lemma_changed_is_listed(targets, after, recreated, targets.len() as int, i);
}

/// A directory that becomes inaccessible is reported once, its stored state
/// becomes the denied one, and while access stays denied later passes do
/// not report it again.
pub proof fn lemma_revoked_reported_once(
    targets: Seq<Seq<char>>,
    stored: Seq<FileState>,
    denied: Seq<FileState>,
    later: Seq<FileState>,
    i: int,
)
    requires
        targets.len() == stored.len(),
        targets.no_duplicates(),
        stored.len() == denied.len(),
        denied.len() == later.len(),
        0 <= i < targets.len(),
        stored[i] is IsDir,
        denied[i] == FileState::NoPerm(crate::snapshot::EPOCH_NANOS),
        later[i] == denied[i],
    ensures
        changed_targets(targets, stored, denied).contains(targets[i]),
        changed_targets(targets, stored, denied).no_duplicates(),
        next_states(stored, denied)[i] == denied[i],
        !changed_targets(targets, next_states(stored, denied), later).contains(targets[i]),
        next_states(next_states(stored, denied), later)[i] == denied[i],
{
    let after = next_states(stored, denied);
    lemma_changed_is_listed(targets, stored, denied, targets.len() as int, i);
    lemma_listed_distinct(targets, stored, denied, targets.len() as int);
    lemma_listed_distinct(targets, after, later, targets.len() as int);
    let list = changed_targets(targets, after, later);
    if list.contains(targets[i]) {
        let j = choose|j: int| 0 <= j < targets.len() && targets[j] == targets[i];
        assert(j == i);
        lemma_listed_only_changed(targets, after, later, targets.len() as int, i);
    }
}

/// An entry among the first `n` whose path is reported has changed, when the
/// paths are distinct.
proof fn lemma_listed_only_changed(
    targets: Seq<Seq<char>>,
    stored: Seq<FileState>,
    current: Seq<FileState>,
    n: int,
    i: int,
)
    requires
        targets.no_duplicates(),
        0 <= i < n <= targets.len(),
        changed_prefix(targets, stored, current, n).contains(targets[i]),
    ensures
        stored[i].changed_to(current[i]),
    decreases n,
{
    let before = changed_prefix(targets, stored, current, n - 1);
    if i == n - 1 {
        if !stored[i].changed_to(current[i]) {
            lemma_listed_distinct(targets, stored, current, n - 1);
            let j = choose|j: int| 0 <= j < n - 1 && targets[j] == targets[i];
            assert(targets[j] == targets[i]);
        }
    } else {
        if stored[n - 1].changed_to(current[n - 1]) {
            let now = before.push(targets[n - 1]);
            let k = choose|k: int| 0 <= k < now.len() && now[k] == targets[i];
            if k == before.len() {
                assert(targets[n - 1] == targets[i]);
            } else {
                assert(before[k] == targets[i]);
            }
        }
        lemma_listed_only_changed(targets, stored, current, n - 1, i);
    }
}

/// `paths` with every repeated path dropped: the first occurrence of each
/// stays, in its place.
pub open spec fn dedup(paths: Seq<Seq<char>>) -> Seq<Seq<char>>
    decreases paths.len(),
{
    if paths.len() == 0 {
        Seq::empty()
    } else {
        let kept = dedup(paths.drop_last());
        if kept.contains(paths.last()) {
            kept
        } else {
            kept.push(paths.last())
        }
    }
}

/// The watch targets with repeated paths dropped, first occurrences kept in
/// order, so that each path is tracked once.
pub fn dedup_targets(paths: &Vec<String>) -> (r: Vec<String>)
    ensures
        string_views(r@) == dedup(string_views(paths@)),
        string_views(r@).no_duplicates(),
        forall|p: Seq<char>|
            #![trigger string_views(r@).contains(p)]
            string_views(r@).contains(p) <==> string_views(paths@).contains(p),
{
    let ghost views = string_views(paths@);
    let mut out: Vec<String> = Vec::new();
    let mut i: usize = 0;
    assert(views.take(0) =~= Seq::<Seq<char>>::empty());
    while i < paths.len()
        invariant
            i <= paths@.len(),
            views == string_views(paths@),
            string_views(out@) == dedup(views.take(i as int)),
            string_views(out@).no_duplicates(),
            forall|p: Seq<char>|
                #![trigger string_views(out@).contains(p)]
                string_views(out@).contains(p) <==> views.take(i as int).contains(p),
        decreases paths@.len() - i,
    {
        let ghost kept = string_views(out@);
        let mut found = false;
        let mut j: usize = 0;
        while j < out.len()
            invariant
                i < paths@.len(),
                j <= out@.len(),
                kept == string_views(out@),
                found <==> exists|k: int| 0 <= k < j && kept[k] == paths@[i as int]@,
            decreases out@.len() - j,
        {
            assert(kept[j as int] == out@[j as int]@);
            if out[j] == paths[i] {
                found = true;
            }
            j = j + 1;
        }
        assert(views.take(i + 1).drop_last() =~= views.take(i as int));
        assert(views.take(i + 1).last() == paths@[i as int]@);
        let ghost seen = views.take(i as int);
        let ghost p_i = paths@[i as int]@;
        assert(views.take(i + 1) =~= seen.push(p_i));
        assert forall|p: Seq<char>| seen.push(p_i).contains(p) <==> (seen.contains(p) || p == p_i) by {
            if seen.push(p_i).contains(p) {
                let k = choose|k: int| 0 <= k < seen.len() + 1 && seen.push(p_i)[k] == p;
                if k < seen.len() {
                    assert(seen[k] == p);
                }
            }
            if seen.contains(p) {
                let k = choose|k: int| 0 <= k < seen.len() && seen[k] == p;
                assert(seen.push(p_i)[k] == p);
            }
            if p == p_i {
                assert(seen.push(p_i)[seen.len() as int] == p);
            }
        }
        if !found {
            out.push(paths[i].clone());
            let ghost now = string_views(out@);
            assert(now =~= kept.push(p_i));
            assert forall|p: Seq<char>| now.contains(p) <==> (kept.contains(p) || p == p_i) by {
                if now.contains(p) {
                    let k = choose|k: int| 0 <= k < now.len() && now[k] == p;
                    if k < kept.len() {
                        assert(kept[k] == p);
                    }
                }
                if kept.contains(p) {
                    let k = choose|k: int| 0 <= k < kept.len() && kept[k] == p;
                    assert(now[k] == p);
                }
                if p == p_i {
                    assert(now[kept.len() as int] == p);
                }
            }
            assert(!kept.contains(p_i));
        } else {
            proof {
                let k = choose|k: int| 0 <= k < out@.len() && kept[k] == paths@[i as int]@;
                assert(kept.contains(paths@[i as int]@));
            }
        }
        i = i + 1;
    }
    assert(views.take(paths@.len() as int) =~= views);
    out
}

/// Each watched path with the state it was last seen in.
pub struct WatchState {
    targets: Vec<String>,
    states: Vec<FileState>,
}

impl WatchState {
    /// The watched paths, in table order.
    pub closed spec fn spec_targets(&self) -> Seq<Seq<char>> {
        string_views(self.targets@)
    }

    /// The stored state of each watched path, in table order.
    pub closed spec fn spec_states(&self) -> Seq<FileState> {
        self.states@
    }

    /// Every path is watched once and has exactly one stored state.
    pub open spec fn wf(&self) -> bool {
        &&& self.spec_targets().len() == self.spec_states().len()
        &&& self.spec_targets().no_duplicates()
    }

    /// Starts watching `targets`, whose baseline states are `initial`. The
    /// paths must be distinct (see `dedup_targets`).
    pub fn new(targets: Vec<String>, initial: Vec<FileState>) -> (r: WatchState)
        requires
            targets.len() == initial.len(),
            string_views(targets@).no_duplicates(),
        ensures
            r.wf(),
            r.spec_targets() == string_views(targets@),
            r.spec_states() == initial@,
    {
        WatchState { targets, states: initial }
    }

    /// The number of watched paths.
    pub fn len(&self) -> (r: usize)
        requires
            self.wf(),
        ensures
            r == self.spec_targets().len(),
    {
        self.targets.len()
    }

    /// The `i`-th watched path.
    pub fn target(&self, i: usize) -> (r: &String)
        requires
            self.wf(),
            i < self.spec_targets().len(),
        ensures
            r@ == self.spec_targets()[i as int],
    {
        &self.targets[i]
    }

    /// The stored state of the `i`-th watched path.
    pub fn state(&self, i: usize) -> (r: FileState)
        requires
            self.wf(),
            i < self.spec_states().len(),
        ensures
            r == self.spec_states()[i as int],
    {
        self.states[i]
    }
}

/// One polling pass. `current[i]` is the state just observed for the `i`-th
/// watched path. Every entry is compared; each changed entry is overwritten
/// with its new state at once. Returns the changed paths in table order, or
/// `None` when nothing changed.
pub fn process_changed_files(all_files: &mut WatchState, current: &Vec<FileState>) -> (r: Option<
    Vec<String>,
>)
    requires
        old(all_files).wf(),
        current.len() == old(all_files).spec_states().len(),
    ensures
        final(all_files).wf(),
        final(all_files).spec_targets() == old(all_files).spec_targets(),
        final(all_files).spec_states() == next_states(old(all_files).spec_states(), current@),
        r is None <==> forall|i: int|
            0 <= i < current@.len() ==> !#[trigger] old(all_files).spec_states()[i].changed_to(
                current@[i],
            ),
        r is None <==> changed_targets(
            old(all_files).spec_targets(),
            old(all_files).spec_states(),
            current@,
        ).len() == 0,
        r matches Some(v) ==> string_views(v@).no_duplicates(),
        r matches Some(v) ==> string_views(v@) == changed_targets(
            old(all_files).spec_targets(),
            old(all_files).spec_states(),
            current@,
        ),
{
    let ghost targets = old(all_files).spec_targets();
    let ghost stored = old(all_files).spec_states();
    let mut changes: Vec<String> = Vec::new();
    let n: usize = all_files.states.len();
    let mut i: usize = 0;
    while i < n
        invariant
            0 <= i <= n,
            n == stored.len(),
            n == current.len(),
            all_files.wf(),
            all_files.spec_targets() == targets,
            all_files.targets@.len() == n,
            forall|j: int| 0 <= j < i ==> all_files.states@[j] == next_states(stored, current@)[j],
            forall|j: int| i <= j < n ==> all_files.states@[j] == stored[j],
            string_views(changes@) == changed_prefix(targets, stored, current@, i as int),
        decreases n - i,
    {
        let fs = all_files.states[i];
        let curr_fs = current[i];
        if fs.has_changed(&curr_fs) {
            changes.push(all_files.targets[i].clone());
            all_files.states.set(i, curr_fs);
        }
        proof {
            assert(string_views(changes@) =~= changed_prefix(
                targets,
                stored,
                current@,
                i + 1,
            ));
        }
        i = i + 1;
    }
    proof {
        assert(all_files.spec_states() =~= next_states(stored, current@));
        if forall|j: int| 0 <= j < n ==> !#[trigger] stored[j].changed_to(current@[j]) {
            lemma_nothing_changed_nothing_listed(targets, stored, current@, n as int);
        } else {
            let j = choose|j: int| 0 <= j < n && stored[j].changed_to(current@[j]);
            lemma_changed_is_listed(targets, stored, current@, n as int, j);
        }
        lemma_listed_distinct(targets, stored, current@, n as int);
    }
    if changes.len() > 0 {
        Some(changes)
    } else {
        None
    }
}

} // verus!
