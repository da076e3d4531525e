//! The table of contents of an archive: an ordered mapping from path to
//! entry descriptor in which a later record for a path replaces the earlier
//! one in place.

use vstd::prelude::*;

verus! {

/// What an entry asks the patcher to do with its path.
#[derive(Clone, Copy, Debug, PartialEq, Eq)]
pub enum EntryKind {
    Update,
    Removal,
}

/// Locates one stored payload, or marks a removal.
#[derive(Clone, Copy, Debug, PartialEq, Eq)]
pub struct EntryDescriptor {
    /// Offset of the stored bytes from the start of the archive.
    pub offset: u64,
    /// Number of bytes stored in the archive.
    pub compressed_size: u64,
    /// Number of bytes of the content before compression.
    pub uncompressed_size: u64,
    /// CRC-32 of the uncompressed content, when checksums are enabled.
    pub checksum: Option<u32>,
    pub kind: EntryKind,
    /// Whether the stored bytes are a zlib stream.
    pub compressed: bool,
}

/// The descriptor recorded for every removal: no payload, all sizes zero.
pub open spec fn removal_descriptor() -> EntryDescriptor {
    EntryDescriptor {
        offset: 0,
        compressed_size: 0,
        uncompressed_size: 0,
        checksum: None,
        kind: EntryKind::Removal,
        compressed: false,
    }
}

/// One record of the table, as a mathematical value.
pub struct TocItem {
    pub path: Seq<u8>,
    pub descriptor: EntryDescriptor,
}

/// One record of the table.
#[derive(Clone, Debug, PartialEq, Eq)]
pub struct TocEntry {
    pub path: Vec<u8>,
    pub descriptor: EntryDescriptor,
}

impl View for TocEntry {
    type V = TocItem;

    open spec fn view(&self) -> TocItem {
        TocItem { path: self.path@, descriptor: self.descriptor }
    }
}

/// The records of `entries` as mathematical values, in the same order.
pub open spec fn items_of(entries: Seq<TocEntry>) -> Seq<TocItem> {
    Seq::new(entries.len(), |i: int| entries[i]@)
}

/// Whether some record of `toc` is keyed by `path`.
pub open spec fn has_path(toc: Seq<TocItem>, path: Seq<u8>) -> bool {
    exists|i: int| 0 <= i < toc.len() && (#[trigger] toc[i]).path == path
}

/// The index of a record keyed by `path`, where there is one.
pub open spec fn position(toc: Seq<TocItem>, path: Seq<u8>) -> int {
    choose|i: int| 0 <= i < toc.len() && (#[trigger] toc[i]).path == path
}

/// No two records share a path.
pub open spec fn distinct_paths(toc: Seq<TocItem>) -> bool {
    forall|i: int, j: int|
        0 <= i < j < toc.len() ==> (#[trigger] toc[i]).path != (#[trigger] toc[j]).path
}

/// The descriptor recorded for `path`, if any.
pub open spec fn toc_get(toc: Seq<TocItem>, path: Seq<u8>) -> Option<EntryDescriptor> {
    if has_path(toc, path) {
        Some(toc[position(toc, path)].descriptor)
    } else {
        None
    }
}

/// Records `descriptor` for `path`: in place of the record that `path`
/// already has, or else at the end.
pub open spec fn toc_put(toc: Seq<TocItem>, path: Seq<u8>, descriptor: EntryDescriptor) -> Seq<
    TocItem,
> {
    let item = TocItem { path, descriptor };
    if has_path(toc, path) {
        toc.update(position(toc, path), item)
    } else {
        toc.push(item)
    }
}

/// Recording a descriptor keeps paths distinct, makes it the descriptor of
/// its path, and leaves every other path as it was.
pub proof fn lemma_put(toc: Seq<TocItem>, path: Seq<u8>, descriptor: EntryDescriptor)
    requires
        distinct_paths(toc),
    ensures
        distinct_paths(toc_put(toc, path, descriptor)),
        toc_get(toc_put(toc, path, descriptor), path) == Some(descriptor),
        forall|other: Seq<u8>|
            other != path ==> #[trigger] toc_get(toc_put(toc, path, descriptor), other)
                == toc_get(toc, other),
        forall|other: Seq<u8>| #[trigger]
            has_path(toc_put(toc, path, descriptor), other) <==> (other == path || has_path(
                toc,
                other,
            )),
        toc_put(toc, path, descriptor).len() == toc.len() + (if has_path(toc, path) {
            0int
        } else {
            1int
        }),
{
    let item = TocItem { path, descriptor };
    let next = toc_put(toc, path, descriptor);
    let at = if has_path(toc, path) {
        position(toc, path)
    } else {
        toc.len() as int
    };
    assert(next.len() > at && next[at] == item);
    assert forall|k: int| 0 <= k < next.len() && k != at implies #[trigger] next[k] == toc[k]
        && next[k].path != path by {}
    assert(has_path(next, path));
    assert(position(next, path) == at);
    assert forall|other: Seq<u8>| #[trigger]
        has_path(next, other) <==> (other == path || has_path(toc, other)) by {
        if other != path && has_path(toc, other) {
            assert(next[position(toc, other)].path == other);
        }
        if other != path && has_path(next, other) {
            assert(toc[position(next, other)].path == other);
        }
    }
    assert forall|other: Seq<u8>| other != path implies #[trigger] toc_get(next, other) == toc_get(
        toc,
        other,
    ) by {
        if has_path(toc, other) {
            let k = position(toc, other);
            assert(next[k].path == other);
            let m = position(next, other);
            assert(m != at);
            assert(toc[m].path == other);
            assert(m == k);
        }
        if has_path(next, other) {
            let m = position(next, other);
            assert(m != at);
            assert(toc[m].path == other);
        }
    }
}

/// Whether two byte strings are equal.
pub fn same_bytes(a: &Vec<u8>, b: &Vec<u8>) -> (same: bool)
    ensures
        same == (a@ == b@),
{
    if a.len() != b.len() {
        return false;
    }
    let mut i: usize = 0;
    while i < a.len()
        invariant
            a.len() == b.len(),
            i <= a.len(),
            a@.subrange(0, i as int) == b@.subrange(0, i as int),
        decreases a.len() - i,
    {
        if a[i] != b[i] {
            return false;
        }
        proof {
            assert(a@.subrange(0, i + 1) =~= a@.subrange(0, i as int).push(a@[i as int]));
            assert(b@.subrange(0, i + 1) =~= b@.subrange(0, i as int).push(b@[i as int]));
        }
        i = i + 1;
    }
    proof {
        assert(a@ =~= a@.subrange(0, i as int));
        assert(b@ =~= b@.subrange(0, i as int));
    }
    true
}

/// The table of contents of an archive under construction.
pub struct TableOfContents {
    entries: Vec<TocEntry>,
}

impl View for TableOfContents {
    type V = Seq<TocItem>;

    closed spec fn view(&self) -> Seq<TocItem> {
        items_of(self.entries@)
    }
}

impl TableOfContents {
    /// No path is recorded twice.
    pub open spec fn wf(&self) -> bool {
        distinct_paths(self@)
    }

    /// An empty table.
    pub fn new() -> (toc: TableOfContents)
        ensures
            toc.wf(),
            toc@ == Seq::<TocItem>::empty(),
    {
        let toc = TableOfContents { entries: Vec::new() };
        proof {
            assert(toc@ =~= Seq::<TocItem>::empty());
        }
        toc
    }

    /// The number of records.
    pub fn len(&self) -> (n: usize)
        ensures
            n == self@.len(),
    {
        self.entries.len()
    }

    /// The records, in the order in which their paths first appeared.
    pub fn entries(&self) -> (entries: &Vec<TocEntry>)
        ensures
            items_of(entries@) == self@,
    {
        &self.entries
    }

    /// The index of the record for `path`, if there is one.
    pub fn find(&self, path: &Vec<u8>) -> (found: Option<usize>)
        requires
            self.wf(),
        ensures
            found.is_some() == has_path(self@, path@),
            found matches Some(i) ==> i == position(self@, path@),
    {
        let mut i: usize = 0;
        while i < self.entries.len()
            invariant
                self.wf(),
                i <= self.entries.len(),
                forall|k: int| 0 <= k < i ==> (#[trigger] self@[k]).path != path@,
            decreases self.entries.len() - i,
        {
            if same_bytes(&self.entries[i].path, path) {
                proof {
                    assert(self@[i as int].path == path@);
                    let p = position(self@, path@);
                    assert(self@[p].path == path@);
                    assert(p == i);
                }
                return Some(i);
            }
            i = i + 1;
        }
        None
    }

    /// The descriptor recorded for `path`, if any.
    pub fn get(&self, path: &Vec<u8>) -> (found: Option<EntryDescriptor>)
        requires
            self.wf(),
        ensures
            found == toc_get(self@, path@),
    {
        match self.find(path) {
            Some(i) => Some(self.entries[i].descriptor),
            None => None,
        }
    }

    /// Records `descriptor` for `path`, replacing the record that `path`
    /// already has.
    pub fn put(&mut self, path: Vec<u8>, descriptor: EntryDescriptor)
        requires
            old(self).wf(),
        ensures
            final(self).wf(),
            final(self)@ == toc_put(old(self)@, path@, descriptor),
    {
        proof {
            lemma_put(self@, path@, descriptor);
        }
        let found = self.find(&path);
        let entry = TocEntry { path, descriptor };
        match found {
            Some(i) => {
                self.entries.set(i, entry);
            },
            None => {
                self.entries.push(entry);
            },
        }
        proof {
            assert(self@ =~= toc_put(old(self)@, entry.path@, descriptor));
        }
    }
}

} // verus!
