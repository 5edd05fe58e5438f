//! The data that hooks are evaluated on, and the verdicts they give.
use vstd::prelude::*;

verus! {

/// Identity of a changeset: opaque, compared and ordered as a whole.
#[derive(Clone, Copy, Debug, PartialEq, Eq, Hash, PartialOrd, Ord, Structural)]
pub struct HgChangesetId {
    pub id: u64,
}

impl HgChangesetId {
    pub fn new(id: u64) -> (r: HgChangesetId)
        ensures
            r.id == id,
    {
        HgChangesetId { id }
    }
}

/// How a file was changed by a changeset.
#[derive(Clone, Copy, Debug, PartialEq, Eq, Hash, Structural)]
pub enum ChangedFileType {
    Added,
    Deleted,
    Modified,
}

/// Kind of a stored file.
#[derive(Clone, Copy, Debug, PartialEq, Eq, Hash, Structural)]
pub enum FileType {
    Regular,
    Executable,
    Symlink,
}

/// Parents of a changeset, as hex strings.
#[derive(Clone, Debug, PartialEq)]
pub enum HookChangesetParents {
    NoParents,
    One(String),
    Two(String, String),
}

impl HookChangesetParents {
    pub fn duplicate(&self) -> (r: HookChangesetParents)
        ensures
            r == *self,
    {
        match self {
            HookChangesetParents::NoParents => HookChangesetParents::NoParents,
            HookChangesetParents::One(p) => HookChangesetParents::One(p.clone()),
            HookChangesetParents::Two(p1, p2) => HookChangesetParents::Two(p1.clone(), p2.clone()),
        }
    }
}

/// Information on why a hook rejected its subject.
#[derive(Clone, Debug, PartialEq)]
pub struct HookRejectionInfo {
    pub description: String,
    pub long_description: String,
}

impl HookRejectionInfo {
    pub fn new(description: String, long_description: String) -> (r: HookRejectionInfo)
        ensures
            r.description == description,
            r.long_description == long_description,
    {
        HookRejectionInfo { description, long_description }
    }

    pub fn duplicate(&self) -> (r: HookRejectionInfo)
        ensures
            r == *self,
    {
        HookRejectionInfo {
            description: self.description.clone(),
            long_description: self.long_description.clone(),
        }
    }
}

/// The verdict of one hook on one subject.
#[derive(Clone, Debug, PartialEq)]
pub enum HookExecution {
    Accepted,
    Rejected(HookRejectionInfo),
}

impl HookExecution {
    pub fn duplicate(&self) -> (r: HookExecution)
        ensures
            r == *self,
    {
        match self {
            HookExecution::Accepted => HookExecution::Accepted,
            HookExecution::Rejected(info) => HookExecution::Rejected(info.duplicate()),
        }
    }
}

/// What the evaluation of hooks can fail with.
#[derive(Clone, Debug, PartialEq)]
pub enum ErrorKind {
    /// A hook is bound to a bookmark but not registered.
    NoSuchHook(String),
    NoSuchChangeset(HgChangesetId),
    /// The path has no content at that changeset.
    NoFileContent(HgChangesetId, String),
    /// The named field of a changeset is not UTF-8.
    InvalidUtf8(String),
    /// A hook body failed while it ran.
    HookRunFailed { hook_name: String, cause: String },
}

impl ErrorKind {
    pub fn duplicate(&self) -> (r: ErrorKind)
        ensures
            r == *self,
    {
        match self {
            ErrorKind::NoSuchHook(n) => ErrorKind::NoSuchHook(n.clone()),
            ErrorKind::NoSuchChangeset(id) => ErrorKind::NoSuchChangeset(*id),
            ErrorKind::NoFileContent(id, p) => ErrorKind::NoFileContent(*id, p.clone()),
            ErrorKind::InvalidUtf8(f) => ErrorKind::InvalidUtf8(f.clone()),
            ErrorKind::HookRunFailed { hook_name, cause } => ErrorKind::HookRunFailed {
                hook_name: hook_name.clone(),
                cause: cause.clone(),
            },
        }
    }
}

} // verus!
