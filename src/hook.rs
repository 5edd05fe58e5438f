//! What a hook body sees: a changed file or a whole changeset, and the
//! helpers that read file contents on demand.
use crate::bypass::HookConfig;
use crate::stores::{FileContent, FileContentStore};
use crate::text::{has_substring, str_contains, utf8_decode};
use crate::types::{
    ChangedFileType, ErrorKind, FileType, HgChangesetId, HookChangesetParents, HookExecution,
};
use vstd::prelude::*;
use vstd::utf8::*;

verus! {

/// One file changed by a changeset.
#[derive(Clone, Debug)]
pub struct HookFile {
    pub path: String,
    pub changeset_id: HgChangesetId,
    pub ty: ChangedFileType,
}

impl HookFile {
    pub fn new(path: String, changeset_id: HgChangesetId, ty: ChangedFileType) -> (r: HookFile)
        ensures
            r.path == path,
            r.changeset_id == changeset_id,
            r.ty == ty,
    {
        HookFile { path, changeset_id, ty }
    }

    /// A copy of this file entry.
    pub fn duplicate(&self) -> (r: HookFile)
        ensures
            r == *self,
    {
        HookFile { path: self.path.clone(), changeset_id: self.changeset_id, ty: self.ty }
    }

    fn stored<'a, S: FileContentStore>(&self, store: &'a S) -> (r: Result<
        &'a FileContent,
        ErrorKind,
    >)
        ensures
            match r {
                Ok(c) => store.content(self.changeset_id, self.path@) == Some(*c),
                Err(e) => store.content(self.changeset_id, self.path@) is None && e
                    == ErrorKind::NoFileContent(self.changeset_id, self.path),
            },
    {
        match store.get_file_content_for_changeset(&self.changeset_id, &self.path) {
            Some(c) => Ok(c),
            None => Err(ErrorKind::NoFileContent(self.changeset_id, self.path.clone())),
        }
    }

    /// The bytes of this file; its absence is an error.
    pub fn file_content<S: FileContentStore>(&self, store: &S) -> (r: Result<Vec<u8>, ErrorKind>)
        ensures
            match store.content(self.changeset_id, self.path@) {
                Some(c) => r matches Ok(b) && b@ == c.bytes@,
                None => r == Err::<Vec<u8>, ErrorKind>(
                    ErrorKind::NoFileContent(self.changeset_id, self.path),
                ),
            },
    {
        let c = self.stored(store)?;
        let b = c.bytes.clone();
        proof {
            assert(b@ =~= c.bytes@);
        }
        Ok(b)
    }

    /// The kind of this file; its absence is an error.
    pub fn file_type<S: FileContentStore>(&self, store: &S) -> (r: Result<FileType, ErrorKind>)
        ensures
            match store.content(self.changeset_id, self.path@) {
                Some(c) => r == Ok::<FileType, ErrorKind>(c.file_type),
                None => r == Err::<FileType, ErrorKind>(
                    ErrorKind::NoFileContent(self.changeset_id, self.path),
                ),
            },
    {
        let c = self.stored(store)?;
        Ok(c.file_type)
    }

    /// The size of this file in bytes; its absence is an error.
    pub fn len<S: FileContentStore>(&self, store: &S) -> (r: Result<u64, ErrorKind>)
        ensures
            match store.content(self.changeset_id, self.path@) {
                Some(c) => r == Ok::<u64, ErrorKind>(c.bytes@.len() as u64),
                None => r == Err::<u64, ErrorKind>(
                    ErrorKind::NoFileContent(self.changeset_id, self.path),
                ),
            },
    {
        let c = self.stored(store)?;
        Ok(c.bytes.len() as u64)
    }

    /// Whether the content, read as UTF-8, contains `data`. A missing content,
    /// or one that is not UTF-8, is an error.
    pub fn contains_string<S: FileContentStore>(&self, store: &S, data: &str) -> (r: Result<
        bool,
        ErrorKind,
    >)
        ensures
            match store.content(self.changeset_id, self.path@) {
                Some(c) => if valid_utf8(c.bytes@) {
                    r == Ok::<bool, ErrorKind>(has_substring(decode_utf8(c.bytes@), data@))
                } else {
                    r == Err::<bool, ErrorKind>(ErrorKind::InvalidUtf8(self.path))
                },
                None => r == Err::<bool, ErrorKind>(
                    ErrorKind::NoFileContent(self.changeset_id, self.path),
                ),
            },
    {
        let c = self.stored(store)?;
        match utf8_decode(&c.bytes) {
            Some(text) => Ok(str_contains(text.as_str(), data)),
            None => Err(ErrorKind::InvalidUtf8(self.path.clone())),
        }
    }
}

/// A changeset as hooks see it: text fields already decoded.
#[derive(Clone, Debug)]
pub struct HookChangeset {
    pub author: String,
    pub files: Vec<HookFile>,
    pub comments: String,
    pub parents: HookChangesetParents,
    pub changeset_id: HgChangesetId,
}

impl HookChangeset {
    pub fn new(
        author: String,
        files: Vec<HookFile>,
        comments: String,
        parents: HookChangesetParents,
        changeset_id: HgChangesetId,
    ) -> (r: HookChangeset)
        ensures
            r.author == author,
            r.files == files,
            r.comments == comments,
            r.parents == parents,
            r.changeset_id == changeset_id,
    {
        HookChangeset { author, files, comments, parents, changeset_id }
    }

    /// The bytes of `path` at this changeset, `None` where it has none.
    pub fn file_content<S: FileContentStore>(&self, store: &S, path: &String) -> (r: Option<
        Vec<u8>,
    >)
        ensures
            match store.content(self.changeset_id, path@) {
                Some(c) => r matches Some(b) && b@ == c.bytes@,
                None => r is None,
            },
    {
        match store.get_file_content_for_changeset(&self.changeset_id, path) {
            Some(c) => {
                let b = c.bytes.clone();
                proof {
                    assert(b@ =~= c.bytes@);
                }
                Some(b)
            },
            None => None,
        }
    }
}

/// What a hook body is run with.
pub struct HookContext<T> {
    pub hook_name: String,
    pub repo_name: String,
    pub config: HookConfig,
    pub data: T,
}

impl<T> HookContext<T> {
    pub fn new(hook_name: String, repo_name: String, config: HookConfig, data: T) -> (r:
        HookContext<T>)
        ensures
            r.hook_name == hook_name,
            r.repo_name == repo_name,
            r.config == config,
            r.data == data,
    {
        HookContext { hook_name, repo_name, config, data }
    }
}

/// A hook body: gives a verdict on a changeset or on one file. An `Err` is a
/// failure of the body itself, with its message, and is no verdict.
pub trait Hook<T, S> {
    fn run(&self, context: &HookContext<T>, content_store: &S) -> Result<
        HookExecution,
        String,
    >;
}

/// Identity of the verdict of a changeset hook.
#[derive(Clone, Debug)]
pub struct ChangesetHookExecutionID {
    pub cs_id: HgChangesetId,
    pub hook_name: String,
}

/// Identity of the verdict of a file hook; also the key of the verdict cache.
#[derive(Clone, Debug)]
pub struct FileHookExecutionID {
    pub cs_id: HgChangesetId,
    pub hook_name: String,
    pub file: HookFile,
}

impl FileHookExecutionID {
    pub fn duplicate(&self) -> (r: FileHookExecutionID)
        ensures
            r == *self,
    {
        FileHookExecutionID {
            cs_id: self.cs_id,
            hook_name: self.hook_name.clone(),
            file: self.file.duplicate(),
        }
    }
}

} // verus!
