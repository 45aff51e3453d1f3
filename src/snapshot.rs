//! What one stat call says about one path, and when two such states differ.
use vstd::prelude::*;

verus! {

/// The timestamp given to states that carry no real modification time.
pub const EPOCH_NANOS: i128 = 0;

/// The successful outcome of a stat call on a path.
#[derive(Clone, Copy, Debug, PartialEq, Eq, Structural)]
pub struct StatInfo {
    pub is_file: bool,
    pub is_dir: bool,
    /// Modification time, in nanoseconds relative to the Unix epoch.
    pub modified: i128,
}

/// The failures of a stat call that the watcher treats as states.
#[derive(Clone, Copy, Debug, PartialEq, Eq, Structural)]
pub enum StatError {
    NotFound,
    PermissionDenied,
}

/// The observed state of a watched path: its kind and modification time
/// (nanoseconds relative to the Unix epoch).
#[derive(Clone, Copy, Debug, PartialEq, Eq, Structural)]
pub enum FileState {
    IsFile(i128),
    IsDir(i128),
    IsOther(i128),
    Inexistent(i128),
    NoPerm(i128),
}

impl FileState {
    /// The variant of the state, as a number.
    pub open spec fn tag(self) -> int {
        match self {
            FileState::IsFile(_) => 0,
            FileState::IsDir(_) => 1,
            FileState::IsOther(_) => 2,
            FileState::Inexistent(_) => 3,
            FileState::NoPerm(_) => 4,
        }
    }

    /// The timestamp carried by the state.
    pub open spec fn time(self) -> i128 {
        match self {
            FileState::IsFile(t) => t,
            FileState::IsDir(t) => t,
            FileState::IsOther(t) => t,
            FileState::Inexistent(t) => t,
            FileState::NoPerm(t) => t,
        }
    }

    /// A path counts as changed when its kind differs, or when its kind is
    /// the same and its timestamp moved forward.
    pub open spec fn changed_to(self, new_state: FileState) -> bool {
        self.tag() != new_state.tag() || self.time() < new_state.time()
    }

    /// The state that a stat outcome describes.
    pub open spec fn spec_of(stat: Result<StatInfo, StatError>) -> FileState {
        match stat {
            Err(StatError::NotFound) => FileState::Inexistent(EPOCH_NANOS),
            Err(StatError::PermissionDenied) => FileState::NoPerm(EPOCH_NANOS),
            Ok(info) => if info.is_file {
                FileState::IsFile(info.modified)
            } else if info.is_dir {
                FileState::IsDir(info.modified)
            } else {
                FileState::IsOther(info.modified)
            },
        }
    }

    /// Classifies the outcome of a stat call. A missing path and a denied
    /// access become states with the epoch as their timestamp; a regular
    /// file wins over a directory, and anything else is `IsOther`.
    pub fn of(stat: Result<StatInfo, StatError>) -> (r: FileState)
        ensures
            r == Self::spec_of(stat),
    {
        match stat {
            Err(StatError::NotFound) => FileState::Inexistent(EPOCH_NANOS),
            Err(StatError::PermissionDenied) => FileState::NoPerm(EPOCH_NANOS),
            Ok(info) => {
                if info.is_file {
                    FileState::IsFile(info.modified)
                } else if info.is_dir {
                    FileState::IsDir(info.modified)
                } else {
                    FileState::IsOther(info.modified)
                }
            },
        }
    }

    /// Whether going from `self` to `new_state` is reported as a change.
    pub fn has_changed(&self, new_state: &FileState) -> (r: bool)
        ensures
            r == self.changed_to(*new_state),
    {
        !self.has_similar_state(new_state) || self.system_time() < new_state.system_time()
    }

    /// Whether both states are of the same variant.
    pub fn has_similar_state(&self, other: &FileState) -> (r: bool)
        ensures
            r == (self.tag() == other.tag()),
    {
        match (self, other) {
            (FileState::IsFile(_), FileState::IsFile(_)) => true,
            (FileState::IsDir(_), FileState::IsDir(_)) => true,
            (FileState::IsOther(_), FileState::IsOther(_)) => true,
            (FileState::Inexistent(_), FileState::Inexistent(_)) => true,
            (FileState::NoPerm(_), FileState::NoPerm(_)) => true,
            _ => false,
        }
    }

    /// The timestamp carried by the state.
    pub fn system_time(&self) -> (r: i128)
        ensures
            r == self.time(),
    {
        match self {
            FileState::IsFile(t) => *t,
            FileState::IsDir(t) => *t,
            FileState::IsOther(t) => *t,
            FileState::Inexistent(t) => *t,
            FileState::NoPerm(t) => *t,
        }
    }
}

/// Two states of the same variant and the same timestamp are no change.
pub proof fn lemma_equal_states_unchanged(old_state: FileState, new_state: FileState)
    requires
        old_state.tag() == new_state.tag(),
        old_state.time() == new_state.time(),
    ensures
        !old_state.changed_to(new_state),
{
}

/// Within one variant, a later timestamp is a change.
pub proof fn lemma_later_time_changed(old_state: FileState, new_state: FileState)
    requires
        old_state.tag() == new_state.tag(),
        new_state.time() > old_state.time(),
    ensures
        old_state.changed_to(new_state),
{
}

/// Within one variant, an earlier timestamp is no change.
pub proof fn lemma_earlier_time_unchanged(old_state: FileState, new_state: FileState)
    requires
        old_state.tag() == new_state.tag(),
        new_state.time() < old_state.time(),
    ensures
        !old_state.changed_to(new_state),
{
}

/// A change of variant is a change, whatever the timestamps.
pub proof fn lemma_other_variant_changed(old_state: FileState, new_state: FileState)
    requires
        old_state.tag() != new_state.tag(),
    ensures
        old_state.changed_to(new_state),
{
}

} // verus!
