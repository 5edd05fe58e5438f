//! In-memory stores of changesets and of file contents.
use crate::types::{ChangedFileType, FileType, HgChangesetId, HookChangesetParents};
use vstd::prelude::*;

verus! {

/// What a changeset store holds of one changeset.
pub struct ChangesetInfo {
    /// The author, as raw bytes.
    pub user: Vec<u8>,
    /// The commit message, as raw bytes.
    pub comments: Vec<u8>,
    pub parents: HookChangesetParents,
    /// Changed paths and how each was changed.
    pub files: Vec<(String, ChangedFileType)>,
}

impl ChangesetInfo {
    pub fn new(
        user: Vec<u8>,
        comments: Vec<u8>,
        parents: HookChangesetParents,
        files: Vec<(String, ChangedFileType)>,
    ) -> (r: ChangesetInfo)
        ensures
            r.user == user,
            r.comments == comments,
            r.parents == parents,
            r.files == files,
    {
        ChangesetInfo { user, comments, parents, files }
    }
}

pub open spec fn changeset_in(
    entries: Seq<(HgChangesetId, ChangesetInfo)>,
    id: HgChangesetId,
) -> Option<ChangesetInfo>
    decreases entries.len(),
{
    if entries.len() == 0 {
        None
    } else if entries.last().0 == id {
        Some(entries.last().1)
    } else {
        changeset_in(entries.drop_last(), id)
    }
}

/// Read access to stored changesets.
pub trait ChangesetStore {
    /// The changeset stored under `id`.
    spec fn changeset(&self, id: HgChangesetId) -> Option<ChangesetInfo>;

    fn get_changeset_by_changesetid(&self, changeset_id: &HgChangesetId) -> (r: Option<
        &ChangesetInfo,
    >)
        ensures
            match r {
                Some(cs) => self.changeset(*changeset_id) == Some(*cs),
                None => self.changeset(*changeset_id) is None,
            },
    ;
}

/// Read access to file contents, by changeset and path.
pub trait FileContentStore {
    /// The content of `path` at changeset `id`.
    spec fn content(&self, id: HgChangesetId, path: Seq<char>) -> Option<FileContent>;

    fn get_file_content_for_changeset(&self, changeset_id: &HgChangesetId, path: &String) -> (r:
        Option<&FileContent>)
        ensures
            match r {
                Some(c) => self.content(*changeset_id, path@) == Some(*c),
                None => self.content(*changeset_id, path@) is None,
            },
    ;
}

/// Changesets kept in memory; a later insert of an id shadows an earlier one.
pub struct InMemoryChangesetStore {
    entries: Vec<(HgChangesetId, ChangesetInfo)>,
}

impl ChangesetStore for InMemoryChangesetStore {
    closed spec fn changeset(&self, id: HgChangesetId) -> Option<ChangesetInfo> {
        changeset_in(self.entries@, id)
    }

    fn get_changeset_by_changesetid(&self, changeset_id: &HgChangesetId) -> (r: Option<
        &ChangesetInfo,
    >)
    {
        let mut i: usize = self.entries.len();
        proof {
            assert(self.entries@.subrange(0, i as int) =~= self.entries@);
        }
        while i > 0
            invariant
                i <= self.entries@.len(),
                changeset_in(self.entries@, *changeset_id) == changeset_in(
                    self.entries@.subrange(0, i as int),
                    *changeset_id,
                ),
            decreases i,
        {
            proof {
                assert(self.entries@.subrange(0, i as int).drop_last() =~= self.entries@.subrange(
                    0,
                    i - 1,
                ));
            }
            if self.entries[i - 1].0 == *changeset_id {
                return Some(&self.entries[i - 1].1);
            }
            i = i - 1;
        }
        None
    }
}

impl InMemoryChangesetStore {

    pub fn new() -> (r: InMemoryChangesetStore)
        ensures
            forall|id: HgChangesetId| r.changeset(id) is None,
    {
        InMemoryChangesetStore { entries: Vec::new() }
    }

    pub fn insert(&mut self, changeset_id: &HgChangesetId, changeset: ChangesetInfo)
        ensures
            final(self).changeset(*changeset_id) == Some(changeset),
            forall|id: HgChangesetId|
                id != *changeset_id ==> final(self).changeset(id) == old(self).changeset(id),
    {
        self.entries.push((*changeset_id, changeset));
        proof {
            assert(self.entries@.drop_last() =~= old(self).entries@);
        }
    }

}

/// The content of one file at one changeset.
pub struct FileContent {
    pub file_type: FileType,
    pub bytes: Vec<u8>,
}

pub open spec fn content_in(
    entries: Seq<(HgChangesetId, String, FileContent)>,
    id: HgChangesetId,
    path: Seq<char>,
) -> Option<FileContent>
    decreases entries.len(),
{
    if entries.len() == 0 {
        None
    } else if entries.last().0 == id && entries.last().1@ == path {
        Some(entries.last().2)
    } else {
        content_in(entries.drop_last(), id, path)
    }
}

/// File contents kept in memory, by changeset and path; a later insert
/// shadows an earlier one.
pub struct InMemoryFileContentStore {
    entries: Vec<(HgChangesetId, String, FileContent)>,
}

impl FileContentStore for InMemoryFileContentStore {
    closed spec fn content(&self, id: HgChangesetId, path: Seq<char>) -> Option<FileContent> {
        content_in(self.entries@, id, path)
    }

    fn get_file_content_for_changeset(&self, changeset_id: &HgChangesetId, path: &String) -> (r:
        Option<&FileContent>)
    {
        let mut i: usize = self.entries.len();
        proof {
            assert(self.entries@.subrange(0, i as int) =~= self.entries@);
        }
        while i > 0
            invariant
                i <= self.entries@.len(),
                content_in(self.entries@, *changeset_id, path@) == content_in(
                    self.entries@.subrange(0, i as int),
                    *changeset_id,
                    path@,
                ),
            decreases i,
        {
            proof {
                assert(self.entries@.subrange(0, i as int).drop_last() =~= self.entries@.subrange(
                    0,
                    i - 1,
                ));
            }
            if self.entries[i - 1].0 == *changeset_id && self.entries[i - 1].1 == *path {
                return Some(&self.entries[i - 1].2);
            }
            i = i - 1;
        }
        None
    }
}

impl InMemoryFileContentStore {

    pub fn new() -> (r: InMemoryFileContentStore)
        ensures
            forall|id: HgChangesetId, p: Seq<char>| r.content(id, p) is None,
    {
        InMemoryFileContentStore { entries: Vec::new() }
    }

    pub fn insert(&mut self, key: (HgChangesetId, String), content: (FileType, Vec<u8>))
        ensures
            final(self).content(key.0, key.1@) == Some(
                FileContent { file_type: content.0, bytes: content.1 },
            ),
            forall|id: HgChangesetId, p: Seq<char>|
                !(id == key.0 && p == key.1@) ==> final(self).content(id, p) == old(self).content(
                    id,
                    p,
                ),
    {
        let (id, path) = key;
        let (file_type, bytes) = content;
        self.entries.push((id, path, FileContent { file_type, bytes }));
        proof {
            assert(self.entries@.drop_last() =~= old(self).entries@);
        }
    }

}

} // verus!
