//! The entry resolver: from a patch entry and what was found at its path to
//! the file operations that the entry stands for.

use crate::definition::{EntryView, PatchEntry};
use crate::format::append_bytes;
use vstd::prelude::*;

verus! {

/// A regular file found below a directory entry.
#[derive(Clone, Debug, PartialEq, Eq)]
pub struct FoundFile {
    /// The file's path relative to the data directory.
    pub relative_path: Vec<u8>,
    pub content: Vec<u8>,
}

/// A found file as a mathematical value.
pub struct FoundView {
    pub relative_path: Seq<u8>,
    pub content: Seq<u8>,
}

impl View for FoundFile {
    type V = FoundView;

    open spec fn view(&self) -> FoundView {
        FoundView { relative_path: self.relative_path@, content: self.content@ }
    }
}

/// What stands at an entry's path in the data directory.
#[derive(Clone, Debug, PartialEq, Eq)]
pub enum PathProbe {
    /// A regular file, with its content.
    File(Vec<u8>),
    /// A directory, with every regular file below it in traversal order,
    /// symbolic links not followed.
    Directory(Vec<FoundFile>),
    /// Nothing.
    Missing,
    /// Something that is neither a regular file nor a directory.
    Other,
}

/// A probe as a mathematical value.
pub enum ProbeView {
    File(Seq<u8>),
    Directory(Seq<FoundView>),
    Missing,
    Other,
}

impl View for PathProbe {
    type V = ProbeView;

    open spec fn view(&self) -> ProbeView {
        match self {
            PathProbe::File(content) => ProbeView::File(content@),
            PathProbe::Directory(files) => ProbeView::Directory(
                Seq::new(files@.len(), |i: int| files@[i]@),
            ),
            PathProbe::Missing => ProbeView::Missing,
            PathProbe::Other => ProbeView::Other,
        }
    }
}

/// One operation on the archive.
#[derive(Clone, Debug, PartialEq, Eq)]
pub enum FileOperation {
    Update { relative_path: Vec<u8>, content: Vec<u8> },
    Removal { relative_path: Vec<u8> },
}

/// A file operation as a mathematical value.
pub enum OperationView {
    Update { relative_path: Seq<u8>, content: Seq<u8> },
    Removal { relative_path: Seq<u8> },
}

impl View for FileOperation {
    type V = OperationView;

    open spec fn view(&self) -> OperationView {
        match self {
            FileOperation::Update { relative_path, content } => OperationView::Update {
                relative_path: relative_path@,
                content: content@,
            },
            FileOperation::Removal { relative_path } => OperationView::Removal {
                relative_path: relative_path@,
            },
        }
    }
}

/// The operations of `ops` as mathematical values, in the same order.
pub open spec fn operations_of(ops: Seq<FileOperation>) -> Seq<OperationView> {
    Seq::new(ops.len(), |i: int| ops[i]@)
}

/// Why an entry could not be resolved.
#[derive(Clone, Copy, Debug, PartialEq, Eq)]
pub enum ResolutionError {
    /// The entry's path leaves the data directory, or nothing that is a
    /// file or a directory stands there.
    InvalidPath,
}

/// A slash or a backslash.
pub open spec fn is_separator(byte: u8) -> bool {
    byte == 0x2Fu8 || byte == 0x5Cu8
}

/// A `..` segment starts at `at`.
pub open spec fn parent_segment_at(path: Seq<u8>, at: int) -> bool {
    &&& 0 <= at
    &&& at + 2 <= path.len()
    &&& path[at] == 0x2Eu8
    &&& path[at + 1] == 0x2Eu8
    &&& (at == 0 || is_separator(path[at - 1]))
    &&& (at + 2 == path.len() || is_separator(path[at + 2]))
}

/// The path is absolute or has a `..` segment.
pub open spec fn escapes_root(path: Seq<u8>) -> bool {
    ||| (path.len() > 0 && is_separator(path[0]))
    ||| exists|at: int| parent_segment_at(path, at)
}

/// The update that a found file stands for.
pub open spec fn update_of(file: FoundView) -> OperationView {
    OperationView::Update { relative_path: file.relative_path, content: file.content }
}

/// The operations of an entry, or `None` where its path is invalid. A
/// removal needs no probe; a file is one update under the entry's own path;
/// a directory is one update per file found, in the order found.
pub open spec fn resolved(entry: EntryView, probe: ProbeView) -> Option<Seq<OperationView>> {
    if entry.is_removed {
        Some(seq![OperationView::Removal { relative_path: entry.relative_path }])
    } else if escapes_root(entry.relative_path) {
        None
    } else {
        match probe {
            ProbeView::File(content) => Some(
                seq![OperationView::Update { relative_path: entry.relative_path, content }],
            ),
            ProbeView::Directory(files) => Some(
                Seq::new(files.len(), |i: int| update_of(files[i])),
            ),
            ProbeView::Missing => None,
            ProbeView::Other => None,
        }
    }
}

/// A copy of `src`.
pub fn copy_bytes(src: &Vec<u8>) -> (out: Vec<u8>)
    ensures
        out@ == src@,
{
    let mut out: Vec<u8> = Vec::new();
    append_bytes(&mut out, src);
    proof {
        assert(out@ =~= src@);
    }
    out
}

/// Whether `path` is absolute or has a `..` segment.
pub fn path_escapes_root(path: &Vec<u8>) -> (escapes: bool)
    ensures
        escapes == escapes_root(path@),
{
    let n = path.len();
    if n > 0 && (path[0] == 0x2Fu8 || path[0] == 0x5Cu8) {
        return true;
    }
    let mut at: usize = 0;
    while at < n && n - at >= 2
        invariant
            n == path.len(),
            at <= n,
            forall|k: int| 0 <= k < at ==> !parent_segment_at(path@, k),
        decreases n - at,
    {
        let dots = path[at] == 0x2Eu8 && path[at + 1] == 0x2Eu8;
        let opens = at == 0 || path[at - 1] == 0x2Fu8 || path[at - 1] == 0x5Cu8;
        let closes = at + 2 == n || path[at + 2] == 0x2Fu8 || path[at + 2] == 0x5Cu8;
        if dots && opens && closes {
            proof {
                assert(parent_segment_at(path@, at as int));
            }
            return true;
        }
        at = at + 1;
    }
    proof {
        assert forall|k: int| !parent_segment_at(path@, k) by {}
    }
    false
}

/// Whether resolving `entry` needs a look at the data directory. A removal
/// needs none, and a path that leaves the data directory gets none.
pub fn needs_probe(entry: &PatchEntry) -> (needed: bool)
    ensures
        needed == (!entry.is_removed && !escapes_root(entry.relative_path@)),
{
    !entry.is_removed && !path_escapes_root(&entry.relative_path)
}

/// Resolves `entry` against what was found at its path. The probe is not
/// read for a removal.
pub fn resolve(entry: &PatchEntry, probe: &PathProbe) -> (outcome: Result<
    Vec<FileOperation>,
    ResolutionError,
>)
    ensures
        match outcome {
            Ok(ops) => resolved(entry@, probe@) == Some(operations_of(ops@)),
            Err(e) => resolved(entry@, probe@).is_none() && e == ResolutionError::InvalidPath,
        },
{
    let mut ops: Vec<FileOperation> = Vec::new();
    if entry.is_removed {
        ops.push(FileOperation::Removal { relative_path: copy_bytes(&entry.relative_path) });
        proof {
            assert(operations_of(ops@) =~= resolved(entry@, probe@).unwrap());
        }
        return Ok(ops);
    }
    if path_escapes_root(&entry.relative_path) {
        return Err(ResolutionError::InvalidPath);
    }
    match probe {
        PathProbe::File(content) => {
            ops.push(
                FileOperation::Update {
                    relative_path: copy_bytes(&entry.relative_path),
                    content: copy_bytes(content),
                },
            );
            proof {
                assert(operations_of(ops@) =~= resolved(entry@, probe@).unwrap());
            }
            Ok(ops)
        },
        PathProbe::Directory(files) => {
            let mut i: usize = 0;
            while i < files.len()
                invariant
                    i <= files.len(),
                    ops@.len() == i,
                    forall|k: int| 0 <= k < i ==> (#[trigger] ops@[k])@ == update_of(files@[k]@),
                decreases files.len() - i,
            {
                ops.push(
                    FileOperation::Update {
                        relative_path: copy_bytes(&files[i].relative_path),
                        content: copy_bytes(&files[i].content),
                    },
                );
                i = i + 1;
            }
            proof {
                assert(operations_of(ops@) =~= resolved(entry@, probe@).unwrap());
            }
            Ok(ops)
        },
        PathProbe::Missing => Err(ResolutionError::InvalidPath),
        PathProbe::Other => Err(ResolutionError::InvalidPath),
    }
}

} // verus!
