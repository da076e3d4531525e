//! The byte layout of an archive. All integers are little-endian.
//!
//! ```text
//! header   magic "THOR" | version u16 | flags u8 | table offset u64 | table length u64
//!          | when merging: name length u64, name
//! payload  the stored bytes of every update, in the order written
//! table    record count u64 | records
//! record   path length u64 | path | offset u64 | stored size u64 | content size u64
//!          | checksum u32 (zero when absent) | kind and flags u8
//! trailer  table offset u64 | table length u64
//! ```

use crate::toc::{items_of, EntryDescriptor, EntryKind, TocEntry, TocItem};
use vstd::bytes::{
    lemma_auto_spec_u16_to_from_le_bytes, lemma_auto_spec_u64_to_from_le_bytes,
    spec_u16_to_le_bytes, spec_u32_to_le_bytes, spec_u64_from_le_bytes, spec_u64_to_le_bytes,
    u16_to_le_bytes, u32_to_le_bytes, u64_to_le_bytes,
};
use vstd::prelude::*;

verus! {

/// The format version written into every header.
pub const FORMAT_VERSION: u16 = 1;

/// Header flag: the archive targets a named container.
pub const FLAG_MERGE: u8 = 1;

/// Header flag: update records carry checksums.
pub const FLAG_CHECKSUMS: u8 = 2;

/// Record flag: the record marks a removal.
pub const FLAG_REMOVAL: u8 = 1;

/// Record flag: the stored bytes are a zlib stream.
pub const FLAG_COMPRESSED: u8 = 2;

/// Offset of the table offset field within the header.
pub const TABLE_OFFSET_AT: usize = 7;

/// Offset of the table length field within the header.
pub const TABLE_LENGTH_AT: usize = 15;

/// Archive-wide options, fixed when a session begins.
#[derive(Clone, Debug, PartialEq, Eq)]
pub struct ArchiveOptions {
    pub merge_mode: bool,
    pub target_container_name: Option<Vec<u8>>,
    pub checksums_enabled: bool,
}

/// Archive options as a mathematical value.
pub struct OptionsView {
    pub merge_mode: bool,
    pub target_container_name: Option<Seq<u8>>,
    pub checksums_enabled: bool,
}

impl View for ArchiveOptions {
    type V = OptionsView;

    open spec fn view(&self) -> OptionsView {
        OptionsView {
            merge_mode: self.merge_mode,
            target_container_name: match self.target_container_name {
                Some(name) => Some(name@),
                None => None,
            },
            checksums_enabled: self.checksums_enabled,
        }
    }
}

/// Merge mode needs a target container name that is not empty.
pub open spec fn options_valid(options: OptionsView) -> bool {
    options.merge_mode ==> (options.target_container_name matches Some(name) && name.len() > 0)
}

impl ArchiveOptions {
    /// Whether the options are consistent.
    pub fn is_valid(&self) -> (valid: bool)
        ensures
            valid == options_valid(self@),
    {
        if self.merge_mode {
            match &self.target_container_name {
                Some(name) => name.len() > 0,
                None => false,
            }
        } else {
            true
        }
    }
}

/// The four bytes that open every archive: `THOR`.
pub open spec fn magic() -> Seq<u8> {
    seq![0x54u8, 0x48u8, 0x4Fu8, 0x52u8]
}

/// The header's flag byte: `FLAG_MERGE` and `FLAG_CHECKSUMS`, each set
/// exactly if its option is.
pub open spec fn header_flags(options: OptionsView) -> u8 {
    if options.merge_mode && options.checksums_enabled {
        3u8
    } else if options.merge_mode {
        FLAG_MERGE
    } else if options.checksums_enabled {
        FLAG_CHECKSUMS
    } else {
        0u8
    }
}

/// The length-prefixed target name; empty unless merging.
pub open spec fn name_bytes(options: OptionsView) -> Seq<u8> {
    match options.target_container_name {
        Some(name) if options.merge_mode => spec_u64_to_le_bytes(name.len() as u64) + name,
        _ => Seq::empty(),
    }
}

/// The header for `options`, with the given table fields.
pub open spec fn header_bytes(options: OptionsView, table_offset: u64, table_length: u64) -> Seq<
    u8,
> {
    magic() + spec_u16_to_le_bytes(FORMAT_VERSION) + seq![header_flags(options)]
        + spec_u64_to_le_bytes(table_offset) + spec_u64_to_le_bytes(table_length) + name_bytes(
        options,
    )
}

/// The header's length, which does not depend on the table fields.
pub open spec fn header_len(options: OptionsView) -> nat {
    23 + name_bytes(options).len()
}

/// A record's flag byte: `FLAG_REMOVAL` for a removal, `FLAG_COMPRESSED`
/// where the stored bytes are compressed.
pub open spec fn record_flags(descriptor: EntryDescriptor) -> u8 {
    if descriptor.kind is Removal && descriptor.compressed {
        3u8
    } else if descriptor.kind is Removal {
        FLAG_REMOVAL
    } else if descriptor.compressed {
        FLAG_COMPRESSED
    } else {
        0u8
    }
}

/// A record's checksum field: the checksum, or zero where there is none.
pub open spec fn checksum_field(descriptor: EntryDescriptor) -> u32 {
    match descriptor.checksum {
        Some(sum) => sum,
        None => 0u32,
    }
}

/// One record of the table.
pub open spec fn record_bytes(item: TocItem) -> Seq<u8> {
    spec_u64_to_le_bytes(item.path.len() as u64) + item.path + spec_u64_to_le_bytes(
        item.descriptor.offset,
    ) + spec_u64_to_le_bytes(item.descriptor.compressed_size) + spec_u64_to_le_bytes(
        item.descriptor.uncompressed_size,
    ) + spec_u32_to_le_bytes(checksum_field(item.descriptor)) + seq![
        record_flags(item.descriptor),
    ]
}

/// The records of the table, one after the other.
pub open spec fn records_bytes(toc: Seq<TocItem>) -> Seq<u8>
    decreases toc.len(),
{
    if toc.len() == 0 {
        Seq::empty()
    } else {
        records_bytes(toc.drop_last()) + record_bytes(toc.last())
    }
}

/// The table of contents: the number of records, then the records.
pub open spec fn table_bytes(toc: Seq<TocItem>) -> Seq<u8> {
    spec_u64_to_le_bytes(toc.len() as u64) + records_bytes(toc)
}

/// The trailer, which repeats the header's table fields.
pub open spec fn trailer_bytes(table_offset: u64, table_length: u64) -> Seq<u8> {
    spec_u64_to_le_bytes(table_offset) + spec_u64_to_le_bytes(table_length)
}

/// The finished archive for a header's options, the payload written and
/// the table recorded.
pub open spec fn archive_bytes(options: OptionsView, payload: Seq<u8>, toc: Seq<TocItem>) -> Seq<
    u8,
> {
    let table_offset = (header_len(options) + payload.len()) as u64;
    let table = table_bytes(toc);
    let table_length = table.len() as u64;
    header_bytes(options, table_offset, table_length) + payload + table + trailer_bytes(
        table_offset,
        table_length,
    )
}

/// The header is as long as `header_len` says, whatever its table fields.
pub proof fn lemma_header_len(options: OptionsView, table_offset: u64, table_length: u64)
    ensures
        header_bytes(options, table_offset, table_length).len() == header_len(options),
{
    lemma_auto_spec_u16_to_from_le_bytes();
    lemma_auto_spec_u64_to_from_le_bytes();
}

/// Where the parts of a finished archive stand: the header's table fields
/// and the trailer both give the table's offset and length, the payload
/// follows the header, and the table follows the payload.
pub proof fn lemma_archive_layout(options: OptionsView, payload: Seq<u8>, toc: Seq<TocItem>)
    requires
        header_len(options) + payload.len() + table_bytes(toc).len() <= u64::MAX,
    ensures
        ({
            let archive = archive_bytes(options, payload, toc);
            let start = header_len(options) as int;
            let table_at = start + payload.len();
            let table_end = table_at + table_bytes(toc).len();
            &&& archive.len() == table_end + 16
            &&& archive.subrange(0, 4) == magic()
            &&& archive[6] == header_flags(options)
            &&& spec_u64_from_le_bytes(archive.subrange(7, 15)) == table_at
            &&& spec_u64_from_le_bytes(archive.subrange(15, 23)) == table_bytes(toc).len()
            &&& archive.subrange(start, table_at) == payload
            &&& archive.subrange(table_at, table_end) == table_bytes(toc)
            &&& spec_u64_from_le_bytes(archive.subrange(table_end, table_end + 8)) == table_at
            &&& spec_u64_from_le_bytes(archive.subrange(table_end + 8, table_end + 16))
                == table_bytes(toc).len()
        }),
{
    lemma_auto_spec_u16_to_from_le_bytes();
    lemma_auto_spec_u64_to_from_le_bytes();
    let archive = archive_bytes(options, payload, toc);
    let start = header_len(options) as int;
    let table_at = start + payload.len();
    let table = table_bytes(toc);
    let table_end = table_at + table.len();
    let offset_field = spec_u64_to_le_bytes(table_at as u64);
    let length_field = spec_u64_to_le_bytes(table.len() as u64);
    lemma_header_len(options, table_at as u64, table.len() as u64);
    assert(archive.subrange(0, 4) =~= magic());
    assert(archive.subrange(7, 15) =~= offset_field);
    assert(archive.subrange(15, 23) =~= length_field);
    assert(archive.subrange(start, table_at) =~= payload);
    assert(archive.subrange(table_at, table_end) =~= table);
    assert(archive.subrange(table_end, table_end + 8) =~= offset_field);
    assert(archive.subrange(table_end + 8, table_end + 16) =~= length_field);
}

/// Appends a copy of `src` to `out`.
pub fn append_bytes(out: &mut Vec<u8>, src: &Vec<u8>)
    ensures
        final(out)@ == old(out)@ + src@,
{
    let ghost before = out@;
    let mut i: usize = 0;
    while i < src.len()
        invariant
            i <= src.len(),
            out@ == before + src@.subrange(0, i as int),
        decreases src.len() - i,
    {
        out.push(src[i]);
        proof {
            assert(out@ =~= before + src@.subrange(0, i + 1));
        }
        i = i + 1;
    }
    proof {
        assert(src@.subrange(0, i as int) =~= src@);
    }
}

/// Appends `value` as eight little-endian bytes.
pub fn append_u64(out: &mut Vec<u8>, value: u64)
    ensures
        final(out)@ == old(out)@ + spec_u64_to_le_bytes(value),
{
    let mut bytes = u64_to_le_bytes(value);
    out.append(&mut bytes);
}

/// Replaces the bytes of `out` from `at` on by those of `src`.
pub fn overwrite(out: &mut Vec<u8>, at: usize, src: &Vec<u8>)
    requires
        at + src.len() <= old(out).len(),
    ensures
        final(out)@ == old(out)@.subrange(0, at as int) + src@ + old(out)@.subrange(
            at + src.len(),
            old(out).len() as int,
        ),
{
    let ghost before = out@;
    let mut i: usize = 0;
    while i < src.len()
        invariant
            i <= src.len(),
            at + src.len() <= before.len(),
            out.len() == before.len(),
            out@ == before.subrange(0, at as int) + src@.subrange(0, i as int) + before.subrange(
                at + i,
                before.len() as int,
            ),
        decreases src.len() - i,
    {
        out.set(at + i, src[i]);
        proof {
            assert(out@ =~= before.subrange(0, at as int) + src@.subrange(0, i + 1)
                + before.subrange(at + i + 1, before.len() as int));
        }
        i = i + 1;
    }
    proof {
        assert(src@.subrange(0, i as int) =~= src@);
        assert(before =~= before.subrange(0, at as int) + src@.subrange(0, 0) + before.subrange(
            at + 0,
            before.len() as int,
        ));
    }
}

/// Serialises a header.
pub fn write_header(options: &ArchiveOptions, table_offset: u64, table_length: u64) -> (out: Vec<
    u8,
>)
    ensures
        out@ == header_bytes(options@, table_offset, table_length),
{
    let mut out: Vec<u8> = Vec::new();
    out.push(0x54u8);
    out.push(0x48u8);
    out.push(0x4Fu8);
    out.push(0x52u8);
    proof {
        assert(out@ =~= magic());
    }
    let mut version = u16_to_le_bytes(FORMAT_VERSION);
    out.append(&mut version);
    let flags: u8 = if options.merge_mode && options.checksums_enabled {
        3u8
    } else if options.merge_mode {
        FLAG_MERGE
    } else if options.checksums_enabled {
        FLAG_CHECKSUMS
    } else {
        0u8
    };
    out.push(flags);
    append_u64(&mut out, table_offset);
    append_u64(&mut out, table_length);
    let ghost fixed = out@;
    if options.merge_mode {
        match &options.target_container_name {
            Some(name) => {
                append_u64(&mut out, name.len() as u64);
                append_bytes(&mut out, name);
            },
            None => {},
        }
    }
    proof {
        assert(fixed =~= magic() + spec_u16_to_le_bytes(FORMAT_VERSION) + seq![
            header_flags(options@),
        ] + spec_u64_to_le_bytes(table_offset) + spec_u64_to_le_bytes(table_length));
        assert(out@ =~= fixed + name_bytes(options@));
    }
    out
}

/// Appends one record of the table.
pub fn write_record(out: &mut Vec<u8>, entry: &TocEntry)
    ensures
        final(out)@ == old(out)@ + record_bytes(entry@),
{
    let descriptor = entry.descriptor;
    append_u64(out, entry.path.len() as u64);
    append_bytes(out, &entry.path);
    append_u64(out, descriptor.offset);
    append_u64(out, descriptor.compressed_size);
    append_u64(out, descriptor.uncompressed_size);
    let sum: u32 = match descriptor.checksum {
        Some(sum) => sum,
        None => 0u32,
    };
    let mut sum_bytes = u32_to_le_bytes(sum);
    out.append(&mut sum_bytes);
    let removal = match descriptor.kind {
        EntryKind::Removal => true,
        EntryKind::Update => false,
    };
    let flags: u8 = if removal && descriptor.compressed {
        3u8
    } else if removal {
        FLAG_REMOVAL
    } else if descriptor.compressed {
        FLAG_COMPRESSED
    } else {
        0u8
    };
    out.push(flags);
    proof {
        assert(out@ =~= old(out)@ + record_bytes(entry@));
    }
}

/// Serialises the table of contents.
pub fn write_table(entries: &Vec<TocEntry>) -> (out: Vec<u8>)
    ensures
        out@ == table_bytes(items_of(entries@)),
{
    let ghost toc = items_of(entries@);
    let mut out: Vec<u8> = Vec::new();
    append_u64(&mut out, entries.len() as u64);
    let mut i: usize = 0;
    proof {
        assert(out@ =~= spec_u64_to_le_bytes(toc.len() as u64) + records_bytes(
            toc.subrange(0, 0),
        ));
    }
    while i < entries.len()
        invariant
            i <= entries.len(),
            toc == items_of(entries@),
            out@ == spec_u64_to_le_bytes(toc.len() as u64) + records_bytes(
                toc.subrange(0, i as int),
            ),
        decreases entries.len() - i,
    {
        let ghost before = out@;
        write_record(&mut out, &entries[i]);
        proof {
            let next = toc.subrange(0, i + 1);
            assert(next.drop_last() =~= toc.subrange(0, i as int));
            assert(next.last() == entries@[i as int]@);
            assert(out@ =~= spec_u64_to_le_bytes(toc.len() as u64) + records_bytes(next));
        }
        i = i + 1;
    }
    proof {
        assert(toc.subrange(0, i as int) =~= toc);
    }
    out
}

} // verus!
