//! The archive encoder: a session that owns the bytes written so far and
//! the table of contents, takes updates and removals in order, and is
//! consumed when the archive is finished.

use crate::checksum::{checksum, crc32};
use crate::deflate::{compress, zlib_stream, COMPRESSION_LEVEL};
use crate::format::{
    append_bytes, append_u64, archive_bytes, header_bytes, header_len, lemma_header_len,
    options_valid, overwrite, write_header, write_table, ArchiveOptions, OptionsView,
    TABLE_LENGTH_AT, TABLE_OFFSET_AT,
};
use crate::toc::{
    distinct_paths, removal_descriptor, toc_put, EntryDescriptor, EntryKind, TableOfContents,
    TocItem,
};
use vstd::bytes::{
    lemma_auto_spec_u16_to_from_le_bytes, lemma_auto_spec_u64_to_from_le_bytes, u64_to_le_bytes,
};
use vstd::prelude::*;

verus! {

/// Why the encoder refused to go on.
#[derive(Clone, Copy, Debug, PartialEq, Eq)]
pub enum EncodeError {
    /// The sink could not be written or flushed. Raised by whoever owns the
    /// sink; the in-memory session itself never fails this way.
    IoFailure,
    /// Merge mode without a target container name.
    InvalidOptions,
}

/// The state of a session as a mathematical value.
pub struct SessionView {
    pub options: OptionsView,
    /// The stored bytes of all updates so far.
    pub payload: Seq<u8>,
    pub toc: Seq<TocItem>,
}

/// The canonical form of a path: every backslash becomes a slash.
pub open spec fn normalized(path: Seq<u8>) -> Seq<u8> {
    Seq::new(
        path.len(),
        |i: int|
            if path[i] == 0x5Cu8 {
                0x2Fu8
            } else {
                path[i]
            },
    )
}

/// What is stored for an update: the packed bytes where they are shorter
/// than the content, else the content itself.
pub open spec fn stored_bytes(content: Seq<u8>, packed: Seq<u8>) -> Seq<u8> {
    if packed.len() < content.len() {
        packed
    } else {
        content
    }
}

/// The offset at which the next payload byte will stand.
pub open spec fn cursor(v: SessionView) -> nat {
    header_len(v.options) + v.payload.len()
}

/// The descriptor recorded for an update of `content` in state `v`.
pub open spec fn update_descriptor(v: SessionView, content: Seq<u8>, packed: Seq<u8>) -> EntryDescriptor {
    EntryDescriptor {
        offset: cursor(v) as u64,
        compressed_size: stored_bytes(content, packed).len() as u64,
        uncompressed_size: content.len() as u64,
        checksum: if v.options.checksums_enabled {
            Some(crc32(content))
        } else {
            None
        },
        kind: EntryKind::Update,
        compressed: packed.len() < content.len(),
    }
}

/// The state after an update of `path` with `content`, given its packed form.
pub open spec fn after_update(
    v: SessionView,
    path: Seq<u8>,
    content: Seq<u8>,
    packed: Seq<u8>,
) -> SessionView {
    SessionView {
        options: v.options,
        payload: v.payload + stored_bytes(content, packed),
        toc: toc_put(v.toc, normalized(path), update_descriptor(v, content, packed)),
    }
}

/// The state after a removal of `path`.
pub open spec fn after_removal(v: SessionView, path: Seq<u8>) -> SessionView {
    SessionView {
        options: v.options,
        payload: v.payload,
        toc: toc_put(v.toc, normalized(path), removal_descriptor()),
    }
}

/// The finished archive of a state.
pub open spec fn finished(v: SessionView) -> Seq<u8> {
    archive_bytes(v.options, v.payload, v.toc)
}

/// A descriptor agrees with a session whose cursor stands at `end`: a
/// removal is the removal descriptor; an update lies within the payload
/// region, is flagged compressed exactly if it is stored shorter than its
/// content, and has a checksum exactly if checksums are enabled.
pub open spec fn descriptor_fits(d: EntryDescriptor, options: OptionsView, end: nat) -> bool {
    match d.kind {
        EntryKind::Removal => d == removal_descriptor(),
        EntryKind::Update => {
            &&& header_len(options) <= d.offset
            &&& d.offset + d.compressed_size <= end
            &&& d.compressed ==> d.compressed_size < d.uncompressed_size
            &&& !d.compressed ==> d.compressed_size == d.uncompressed_size
            &&& d.checksum is Some <==> options.checksums_enabled
        },
    }
}

/// What holds of every reachable state.
pub open spec fn view_wf(v: SessionView) -> bool {
    &&& options_valid(v.options)
    &&& distinct_paths(v.toc)
    &&& forall|i: int|
        0 <= i < v.toc.len() ==> descriptor_fits((#[trigger] v.toc[i]).descriptor, v.options, cursor(v))
}

/// Brings a path into its canonical form.
pub fn normalize_path(path: &Vec<u8>) -> (out: Vec<u8>)
    ensures
        out@ == normalized(path@),
{
    let mut out: Vec<u8> = Vec::new();
    let mut i: usize = 0;
    while i < path.len()
        invariant
            i <= path.len(),
            out@ == normalized(path@).subrange(0, i as int),
        decreases path.len() - i,
    {
        let byte = path[i];
        out.push(if byte == 0x5Cu8 { 0x2Fu8 } else { byte });
        proof {
            assert(out@ =~= normalized(path@).subrange(0, i + 1));
        }
        i = i + 1;
    }
    proof {
        assert(normalized(path@).subrange(0, i as int) =~= normalized(path@));
    }
    out
}

/// An archive under construction.
pub struct ArchiveSession {
    options: ArchiveOptions,
    out: Vec<u8>,
    toc: TableOfContents,
}

impl View for ArchiveSession {
    type V = SessionView;

    closed spec fn view(&self) -> SessionView {
        SessionView {
            options: self.options@,
            payload: self.out@.skip(header_len(self.options@) as int),
            toc: self.toc@,
        }
    }
}

impl ArchiveSession {
    /// The buffer starts with the provisional header.
    pub closed spec fn buffer_ok(&self) -> bool {
        &&& header_len(self.options@) <= self.out@.len()
        &&& self.out@.take(header_len(self.options@) as int) == header_bytes(self.options@, 0, 0)
    }

    /// The session is in a state that `begin` and the append calls can
    /// leave it in.
    pub open spec fn wf(&self) -> bool {
        self.buffer_ok() && view_wf(self@)
    }

    /// Opens a session: writes the provisional header and starts with an
    /// empty table. Fails exactly if the options are inconsistent.
    pub fn begin(options: ArchiveOptions) -> (opened: Result<ArchiveSession, EncodeError>)
        ensures
            options_valid(options@) ==> (opened matches Ok(session) && session.wf() && session@
                == (SessionView {
                options: options@,
                payload: Seq::empty(),
                toc: Seq::empty(),
            })),
            !options_valid(options@) ==> opened == Err::<ArchiveSession, EncodeError>(
                EncodeError::InvalidOptions,
            ),
    {
        if !options.is_valid() {
            return Err(EncodeError::InvalidOptions);
        }
        let out = write_header(&options, 0, 0);
        let session = ArchiveSession { options, out, toc: TableOfContents::new() };
        proof {
            lemma_header_len(options@, 0, 0);
            assert(session.out@.take(header_len(options@) as int) =~= session.out@);
            assert(session@.payload =~= Seq::<u8>::empty());
        }
        Ok(session)
    }

    /// The options the session was opened with.
    pub fn options(&self) -> (options: &ArchiveOptions)
        ensures
            options@ == self@.options,
    {
        &self.options
    }

    /// The table of contents recorded so far.
    pub fn table(&self) -> (toc: &TableOfContents)
        ensures
            toc@ == self@.toc,
    {
        &self.toc
    }

    /// The offset at which the next payload byte will be written.
    pub fn write_cursor(&self) -> (at: u64)
        requires
            self.wf(),
        ensures
            at == cursor(self@),
    {
        self.out.len() as u64
    }

    /// Records an update of `path` with `content`, whose zlib stream is
    /// `packed`. Stores `packed` if it is shorter than `content`, else
    /// `content` itself, at the write cursor.
    pub fn append_stored(&mut self, path: &Vec<u8>, content: &Vec<u8>, packed: &Vec<u8>)
        requires
            old(self).wf(),
        ensures
            final(self).wf(),
            final(self)@ == after_update(old(self)@, path@, content@, packed@),
    {
        let compressed = packed.len() < content.len();
        let offset = self.out.len() as u64;
        let sum = if self.options.checksums_enabled {
            Some(checksum(content))
        } else {
            None
        };
        let stored = if compressed {
            packed
        } else {
            content
        };
        let descriptor = EntryDescriptor {
            offset,
            compressed_size: stored.len() as u64,
            uncompressed_size: content.len() as u64,
            checksum: sum,
            kind: EntryKind::Update,
            compressed,
        };
        append_bytes(&mut self.out, stored);
        self.toc.put(normalize_path(path), descriptor);
        proof {
            let hl = header_len(self.options@) as int;
            assert(self.out@.take(hl) =~= old(self).out@.take(hl));
            assert(self@.payload =~= old(self)@.payload + stored@);
            assert(descriptor == update_descriptor(old(self)@, content@, packed@));
        }
    }

    /// Records an update of `path` with `content`, compressed where that
    /// makes it shorter.
    pub fn append_update(&mut self, path: &Vec<u8>, content: &Vec<u8>)
        requires
            old(self).wf(),
        ensures
            final(self).wf(),
            final(self)@ == after_update(
                old(self)@,
                path@,
                content@,
                zlib_stream(content@, COMPRESSION_LEVEL),
            ),
    {
        let packed = compress(content, COMPRESSION_LEVEL);
        self.append_stored(path, content, &packed);
    }

    /// Records that `path` is to be removed. Writes no payload.
    pub fn append_removal(&mut self, path: &Vec<u8>)
        requires
            old(self).wf(),
        ensures
            final(self).wf(),
            final(self)@ == after_removal(old(self)@, path@),
    {
        let descriptor = EntryDescriptor {
            offset: 0,
            compressed_size: 0,
            uncompressed_size: 0,
            checksum: None,
            kind: EntryKind::Removal,
            compressed: false,
        };
        self.toc.put(normalize_path(path), descriptor);
    }

    /// Ends the session: appends the table of contents and the trailer, and
    /// writes the table's offset and length into the header.
    pub fn finish(self) -> (archive: Vec<u8>)
        requires
            self.wf(),
        ensures
            archive@ == finished(self@),
    {
        let ghost v = self@;
        let ArchiveSession { options, mut out, toc } = self;
        let table_offset = out.len() as u64;
        let mut table = write_table(toc.entries());
        let table_length = table.len() as u64;
        proof {
            lemma_auto_spec_u16_to_from_le_bytes();
            lemma_auto_spec_u64_to_from_le_bytes();
            lemma_header_len(v.options, 0, 0);
        }
        let ghost before = out@;
        overwrite(&mut out, TABLE_OFFSET_AT, &u64_to_le_bytes(table_offset));
        overwrite(&mut out, TABLE_LENGTH_AT, &u64_to_le_bytes(table_length));
        proof {
            let hl = header_len(v.options) as int;
            let old_header = header_bytes(v.options, 0, 0);
            let new_header = header_bytes(v.options, table_offset, table_length);
            assert(before.take(hl) == old_header);
            assert forall|i: int| 0 <= i < hl implies out@[i] == new_header[i] by {
                assert(before[i] == before.take(hl)[i]);
            }
            assert(out@ =~= new_header + v.payload);
        }
        out.append(&mut table);
        append_u64(&mut out, table_offset);
        append_u64(&mut out, table_length);
        proof {
            assert(out@ =~= finished(v));
        }
        out
    }
}

} // verus!
