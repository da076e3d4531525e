use mkpatch::checksum::checksum;
use mkpatch::definition::{DefinitionError, PatchDefinition, PatchEntry};
use mkpatch::encoder::{normalize_path, ArchiveSession, EncodeError};
use mkpatch::format::{write_header, write_table, ArchiveOptions};
use mkpatch::orchestrator::{apply_entry, generate, start, OrchestratorError};
use mkpatch::resolver::{
    needs_probe, path_escapes_root, resolve, FileOperation, FoundFile, PathProbe, ResolutionError,
};
use mkpatch::toc::{same_bytes, EntryDescriptor, EntryKind, TableOfContents, TocEntry};

fn b(text: &str) -> Vec<u8> {
    text.as_bytes().to_vec()
}

fn u64_at(bytes: &[u8], at: usize) -> u64 {
    let mut field = [0u8; 8];
    field.copy_from_slice(&bytes[at..at + 8]);
    u64::from_le_bytes(field)
}

fn u32_at(bytes: &[u8], at: usize) -> u32 {
    let mut field = [0u8; 4];
    field.copy_from_slice(&bytes[at..at + 4]);
    u32::from_le_bytes(field)
}

fn plain_options(checksums: bool) -> ArchiveOptions {
    ArchiveOptions { merge_mode: false, target_container_name: None, checksums_enabled: checksums }
}

fn update_entry(path: &str) -> PatchEntry {
    PatchEntry { relative_path: b(path), is_removed: false }
}

fn definition(entries: Vec<PatchEntry>) -> PatchDefinition {
    PatchDefinition {
        use_grf_merging: false,
        target_grf_name: None,
        include_checksums: true,
        entries,
    }
}

#[test]
fn checksum_of_known_vectors() {
    assert_eq!(checksum(&b("123456789")), 0xCBF4_3926);
    assert_eq!(checksum(&b("hello")), 0x3610_A686);
    assert_eq!(checksum(&Vec::new()), 0);
}

#[test]
fn checksum_agrees_with_independent_implementation() {
    let mut content: Vec<u8> = Vec::new();
    for i in 0..5000u32 {
        content.push((i.wrapping_mul(2654435761) >> 13) as u8);
        assert_eq!(checksum(&content), crc32fast::hash(&content));
    }
}

#[test]
fn single_file_with_checksum() {
    let def = definition(vec![update_entry("data/a.txt")]);
    let probes = vec![PathProbe::File(b("hello"))];
    let archive = generate(&def, &probes).unwrap();
    let mut expected: Vec<u8> = Vec::new();
    expected.extend_from_slice(b"THOR");
    expected.extend_from_slice(&1u16.to_le_bytes());
    expected.push(2);
    expected.extend_from_slice(&28u64.to_le_bytes());
    expected.extend_from_slice(&55u64.to_le_bytes());
    expected.extend_from_slice(b"hello");
    expected.extend_from_slice(&1u64.to_le_bytes());
    expected.extend_from_slice(&10u64.to_le_bytes());
    expected.extend_from_slice(b"data/a.txt");
    expected.extend_from_slice(&23u64.to_le_bytes());
    expected.extend_from_slice(&5u64.to_le_bytes());
    expected.extend_from_slice(&5u64.to_le_bytes());
    expected.extend_from_slice(&crc32fast::hash(b"hello").to_le_bytes());
    expected.push(0);
    expected.extend_from_slice(&28u64.to_le_bytes());
    expected.extend_from_slice(&55u64.to_le_bytes());
    assert_eq!(archive, expected);
    assert_eq!(archive.len(), 99);
    assert_eq!(archive[6] & 2, 2);
    assert_eq!(archive[6] & 1, 0);
}

#[test]
fn single_file_descriptor() {
    let def = definition(vec![update_entry("data/a.txt")]);
    let mut session = start(&def).unwrap();
    apply_entry(&mut session, &def.entries[0], &PathProbe::File(b("hello"))).unwrap();
    assert_eq!(session.table().len(), 1);
    let found = session.table().get(&b("data/a.txt")).unwrap();
    assert_eq!(
        found,
        EntryDescriptor {
            offset: 23,
            compressed_size: 5,
            uncompressed_size: 5,
            checksum: Some(0x3610_A686),
            kind: EntryKind::Update,
            compressed: false,
        }
    );
    assert!(session.options().checksums_enabled);
    assert!(!session.options().merge_mode);
    assert_eq!(session.write_cursor(), 28);
}

#[test]
fn removal_needs_no_file() {
    let def = definition(vec![PatchEntry { relative_path: b("old.txt"), is_removed: true }]);
    assert!(!needs_probe(&def.entries[0]));
    let archive = generate(&def, &Vec::new()).unwrap();
    assert_eq!(u64_at(&archive, 7), 23);
    assert_eq!(u64_at(&archive, 23), 1);
    assert_eq!(u64_at(&archive, 31), 7);
    assert_eq!(&archive[39..46], b"old.txt");
    assert_eq!(u64_at(&archive, 46), 0);
    assert_eq!(u64_at(&archive, 54), 0);
    assert_eq!(u64_at(&archive, 62), 0);
    assert_eq!(u32_at(&archive, 70), 0);
    assert_eq!(archive[74], 1);
    assert_eq!(archive.len(), 23 + 52 + 16);
}

#[test]
fn removal_descriptor_is_empty() {
    let mut session = ArchiveSession::begin(plain_options(true)).unwrap();
    session.append_update(&b("a"), &b("payload"));
    let cursor = session.write_cursor();
    session.append_removal(&b("old.txt"));
    assert_eq!(session.write_cursor(), cursor);
    let found = session.table().get(&b("old.txt")).unwrap();
    assert_eq!(found.kind, EntryKind::Removal);
    assert_eq!(found.offset, 0);
    assert_eq!(found.compressed_size, 0);
    assert_eq!(found.uncompressed_size, 0);
    assert_eq!(found.checksum, None);
    assert!(!found.compressed);
}

#[test]
fn merging_without_target_name_fails() {
    let mut def = definition(vec![update_entry("data/a.txt")]);
    def.use_grf_merging = true;
    def.target_grf_name = Some(Vec::new());
    assert_eq!(def.validate(), Err(DefinitionError::MissingTargetName));
    let probes = vec![PathProbe::File(b("hello"))];
    assert_eq!(
        generate(&def, &probes),
        Err(OrchestratorError::Definition(DefinitionError::MissingTargetName))
    );
    def.target_grf_name = None;
    assert_eq!(
        generate(&def, &probes),
        Err(OrchestratorError::Definition(DefinitionError::MissingTargetName))
    );
    assert!(start(&def).is_err());
}

#[test]
fn empty_path_is_refused() {
    let def = definition(vec![update_entry("a"), update_entry("")]);
    assert_eq!(def.validate(), Err(DefinitionError::EmptyPath));
    assert_eq!(
        generate(&def, &vec![PathProbe::File(b("x")), PathProbe::File(b("y"))]),
        Err(OrchestratorError::Definition(DefinitionError::EmptyPath))
    );
}

#[test]
fn neither_file_nor_directory_fails() {
    let def = definition(vec![update_entry("data/link")]);
    assert_eq!(
        generate(&def, &vec![PathProbe::Other]),
        Err(OrchestratorError::Resolution(ResolutionError::InvalidPath))
    );
    assert_eq!(
        generate(&def, &vec![PathProbe::Missing]),
        Err(OrchestratorError::Resolution(ResolutionError::InvalidPath))
    );
    assert_eq!(
        generate(&def, &Vec::new()),
        Err(OrchestratorError::Resolution(ResolutionError::InvalidPath))
    );
}

#[test]
fn failed_entry_leaves_session_unchanged() {
    let def = definition(vec![update_entry("a"), update_entry("b")]);
    let mut session = start(&def).unwrap();
    apply_entry(&mut session, &def.entries[0], &PathProbe::File(b("one"))).unwrap();
    let cursor = session.write_cursor();
    assert_eq!(
        apply_entry(&mut session, &def.entries[1], &PathProbe::Missing),
        Err(OrchestratorError::Resolution(ResolutionError::InvalidPath))
    );
    assert_eq!(session.write_cursor(), cursor);
    assert_eq!(session.table().len(), 1);
}

#[test]
fn begin_refuses_inconsistent_options() {
    let options =
        ArchiveOptions { merge_mode: true, target_container_name: None, checksums_enabled: false };
    assert!(!options.is_valid());
    assert_eq!(ArchiveSession::begin(options).err(), Some(EncodeError::InvalidOptions));
    let empty = ArchiveOptions {
        merge_mode: true,
        target_container_name: Some(Vec::new()),
        checksums_enabled: false,
    };
    assert_eq!(ArchiveSession::begin(empty).err(), Some(EncodeError::InvalidOptions));
    assert!(plain_options(false).is_valid());
}

#[test]
fn merge_header_carries_target_name() {
    let options = ArchiveOptions {
        merge_mode: true,
        target_container_name: Some(b("data.grf")),
        checksums_enabled: true,
    };
    let header = write_header(&options, 7, 9);
    assert_eq!(&header[0..4], b"THOR");
    assert_eq!(&header[4..6], &[1, 0]);
    assert_eq!(header[6], 3);
    assert_eq!(u64_at(&header, 7), 7);
    assert_eq!(u64_at(&header, 15), 9);
    assert_eq!(u64_at(&header, 23), 8);
    assert_eq!(&header[31..], b"data.grf");
    let session = ArchiveSession::begin(options).unwrap();
    assert_eq!(session.write_cursor(), 39);
    let archive = session.finish();
    assert_eq!(u64_at(&archive, 7), 39);
    assert_eq!(u64_at(&archive, 15), 8);
    assert_eq!(archive.len(), 39 + 8 + 16);
    assert_eq!(u64_at(&archive, 39), 0);
    assert_eq!(u64_at(&archive, 47), 39);
    assert_eq!(u64_at(&archive, 55), 8);
}

#[test]
fn header_without_flags() {
    let header = write_header(&plain_options(false), 0, 0);
    assert_eq!(header.len(), 23);
    assert_eq!(header[6], 0);
    let named = ArchiveOptions {
        merge_mode: false,
        target_container_name: Some(b("ignored")),
        checksums_enabled: false,
    };
    assert_eq!(write_header(&named, 0, 0), header);
}

#[test]
fn last_write_wins() {
    let mut session = ArchiveSession::begin(plain_options(true)).unwrap();
    session.append_update(&b("a.txt"), &b("first"));
    session.append_update(&b("b.txt"), &b("other"));
    session.append_update(&b("a.txt"), &b("second!"));
    assert_eq!(session.table().len(), 2);
    let a = session.table().get(&b("a.txt")).unwrap();
    assert_eq!(a.offset, 23 + 5 + 5);
    assert_eq!(a.uncompressed_size, 7);
    assert_eq!(a.checksum, Some(crc32fast::hash(b"second!")));
    let entries = session.table().entries();
    assert_eq!(entries[0].path, b("a.txt"));
    assert_eq!(entries[1].path, b("b.txt"));
    session.append_removal(&b("b.txt"));
    assert_eq!(session.table().len(), 2);
    assert_eq!(session.table().get(&b("b.txt")).unwrap().kind, EntryKind::Removal);
    assert_eq!(session.table().get(&b("c.txt")), None);
}

#[test]
fn separators_are_normalized() {
    assert_eq!(normalize_path(&b("data\\sub\\a.txt")), b("data/sub/a.txt"));
    assert_eq!(normalize_path(&b("Data/A.TXT")), b("Data/A.TXT"));
    let mut session = ArchiveSession::begin(plain_options(false)).unwrap();
    session.append_update(&b("data\\a.txt"), &b("x"));
    session.append_update(&b("data/a.txt"), &b("yy"));
    assert_eq!(session.table().len(), 1);
    let found = session.table().get(&b("data/a.txt")).unwrap();
    assert_eq!(found.uncompressed_size, 2);
    assert_eq!(found.checksum, None);
}

#[test]
fn compressible_content_is_stored_compressed() {
    let content = vec![7u8; 4000];
    let mut session = ArchiveSession::begin(plain_options(true)).unwrap();
    session.append_update(&b("zeros.bin"), &content);
    let found = session.table().get(&b("zeros.bin")).unwrap();
    assert!(found.compressed);
    assert!(found.compressed_size < 4000);
    assert_eq!(found.uncompressed_size, 4000);
    assert_eq!(found.checksum, Some(crc32fast::hash(&content)));
    assert_eq!(session.write_cursor(), 23 + found.compressed_size);
    let archive = session.finish();
    let from = found.offset as usize;
    let to = from + found.compressed_size as usize;
    let unpacked = miniz_oxide::inflate::decompress_to_vec_zlib(&archive[from..to]).unwrap();
    assert_eq!(unpacked, content);
    let flags_at = archive.len() - 16 - 1;
    assert_eq!(archive[flags_at], 2);
}

#[test]
fn incompressible_content_is_stored_raw() {
    let mut session = ArchiveSession::begin(plain_options(false)).unwrap();
    session.append_update(&b("tiny"), &b("ab"));
    let found = session.table().get(&b("tiny")).unwrap();
    assert!(!found.compressed);
    assert_eq!(found.compressed_size, 2);
    let archive = session.finish();
    assert_eq!(&archive[23..25], b"ab");
}

#[test]
fn packed_form_is_used_only_when_shorter() {
    let mut session = ArchiveSession::begin(plain_options(false)).unwrap();
    session.append_stored(&b("p"), &b("abcdef"), &b("xyz"));
    session.append_stored(&b("q"), &b("abc"), &b("xyz"));
    session.append_stored(&b("r"), &b("ab"), &b("xyz"));
    let p = session.table().get(&b("p")).unwrap();
    let q = session.table().get(&b("q")).unwrap();
    let r = session.table().get(&b("r")).unwrap();
    assert!(p.compressed && p.compressed_size == 3 && p.uncompressed_size == 6);
    assert!(!q.compressed && q.compressed_size == 3 && q.offset == 26);
    assert!(!r.compressed && r.compressed_size == 2 && r.offset == 29);
    let archive = session.finish();
    assert_eq!(&archive[23..31], b"xyzabcab");
}

#[test]
fn directory_expands_in_order() {
    let entry = update_entry("data");
    let files = vec![
        FoundFile { relative_path: b("data/b.txt"), content: b("bee") },
        FoundFile { relative_path: b("data/sub/a.txt"), content: b("ay") },
    ];
    let ops = resolve(&entry, &PathProbe::Directory(files)).unwrap();
    assert_eq!(
        ops,
        vec![
            FileOperation::Update { relative_path: b("data/b.txt"), content: b("bee") },
            FileOperation::Update { relative_path: b("data/sub/a.txt"), content: b("ay") },
        ]
    );
    assert_eq!(resolve(&entry, &PathProbe::Directory(Vec::new())), Ok(Vec::new()));
}

#[test]
fn directory_paths_are_recorded_once() {
    let def = definition(vec![update_entry("data")]);
    let files = vec![
        FoundFile { relative_path: b("data/b.txt"), content: b("bee") },
        FoundFile { relative_path: b("data/sub/a.txt"), content: b("ay") },
        FoundFile { relative_path: b("data/c"), content: Vec::new() },
    ];
    let mut session = start(&def).unwrap();
    apply_entry(&mut session, &def.entries[0], &PathProbe::Directory(files)).unwrap();
    let paths: Vec<Vec<u8>> =
        session.table().entries().iter().map(|entry| entry.path.clone()).collect();
    assert_eq!(paths, vec![b("data/b.txt"), b("data/sub/a.txt"), b("data/c")]);
}

#[test]
fn resolve_file_and_removal() {
    let removed = PatchEntry { relative_path: b("../gone"), is_removed: true };
    assert_eq!(
        resolve(&removed, &PathProbe::Missing),
        Ok(vec![FileOperation::Removal { relative_path: b("../gone") }])
    );
    let entry = update_entry("a.txt");
    assert!(needs_probe(&entry));
    assert_eq!(
        resolve(&entry, &PathProbe::File(b("x"))),
        Ok(vec![FileOperation::Update { relative_path: b("a.txt"), content: b("x") }])
    );
    assert_eq!(resolve(&entry, &PathProbe::Other), Err(ResolutionError::InvalidPath));
}

#[test]
fn escaping_paths_are_invalid() {
    assert!(path_escapes_root(&b("..")));
    assert!(path_escapes_root(&b("../a")));
    assert!(path_escapes_root(&b("a/../b")));
    assert!(path_escapes_root(&b("a\\..\\b")));
    assert!(path_escapes_root(&b("a/..")));
    assert!(path_escapes_root(&b("/etc/passwd")));
    assert!(path_escapes_root(&b("\\share")));
    assert!(!path_escapes_root(&b("a..b/c")));
    assert!(!path_escapes_root(&b("a/..b")));
    assert!(!path_escapes_root(&b("a../b")));
    assert!(!path_escapes_root(&b("...")));
    assert!(!path_escapes_root(&b(".")));
    assert!(!path_escapes_root(&b("")));
    let entry = update_entry("data/../../secret");
    assert!(!needs_probe(&entry));
    assert_eq!(resolve(&entry, &PathProbe::File(b("x"))), Err(ResolutionError::InvalidPath));
}

#[test]
fn generation_is_repeatable() {
    let def = definition(vec![
        update_entry("data"),
        PatchEntry { relative_path: b("old.txt"), is_removed: true },
        update_entry("readme.txt"),
    ]);
    let probes = vec![
        PathProbe::Directory(vec![
            FoundFile { relative_path: b("data/x.bin"), content: vec![0u8; 3000] },
            FoundFile { relative_path: b("data/y.txt"), content: b("why") },
        ]),
        PathProbe::Missing,
        PathProbe::File(b("read me")),
    ];
    let first = generate(&def, &probes).unwrap();
    let second = generate(&def, &probes.clone()).unwrap();
    assert_eq!(first, second);
    let table_offset = u64_at(&first, 7) as usize;
    let table_length = u64_at(&first, 15) as usize;
    assert_eq!(u64_at(&first, table_offset), 4);
    assert_eq!(first.len(), table_offset + table_length + 16);
    assert_eq!(u64_at(&first, first.len() - 16), table_offset as u64);
    assert_eq!(u64_at(&first, first.len() - 8), table_length as u64);
}

#[test]
fn table_serialisation() {
    let entries = vec![TocEntry {
        path: b("ab"),
        descriptor: EntryDescriptor {
            offset: 0x0102,
            compressed_size: 3,
            uncompressed_size: 4,
            checksum: Some(0xAABBCCDD),
            kind: EntryKind::Update,
            compressed: true,
        },
    }];
    let table = write_table(&entries);
    let mut expected: Vec<u8> = Vec::new();
    expected.extend_from_slice(&[1, 0, 0, 0, 0, 0, 0, 0]);
    expected.extend_from_slice(&[2, 0, 0, 0, 0, 0, 0, 0]);
    expected.extend_from_slice(b"ab");
    expected.extend_from_slice(&[2, 1, 0, 0, 0, 0, 0, 0]);
    expected.extend_from_slice(&[3, 0, 0, 0, 0, 0, 0, 0]);
    expected.extend_from_slice(&[4, 0, 0, 0, 0, 0, 0, 0]);
    expected.extend_from_slice(&[0xDD, 0xCC, 0xBB, 0xAA]);
    expected.push(2);
    assert_eq!(table, expected);
    assert_eq!(write_table(&Vec::new()), vec![0u8; 8]);
}

#[test]
fn table_of_contents_put_and_get() {
    let mut toc = TableOfContents::new();
    assert_eq!(toc.len(), 0);
    let d = EntryDescriptor {
        offset: 1,
        compressed_size: 2,
        uncompressed_size: 2,
        checksum: None,
        kind: EntryKind::Update,
        compressed: false,
    };
    toc.put(b("x"), d);
    toc.put(b("y"), EntryDescriptor { offset: 3, ..d });
    toc.put(b("x"), EntryDescriptor { offset: 5, ..d });
    assert_eq!(toc.len(), 2);
    assert_eq!(toc.find(&b("x")), Some(0));
    assert_eq!(toc.find(&b("y")), Some(1));
    assert_eq!(toc.find(&b("z")), None);
    assert_eq!(toc.get(&b("x")).unwrap().offset, 5);
    assert_eq!(toc.get(&b("y")).unwrap().offset, 3);
    assert!(same_bytes(&b("abc"), &b("abc")));
    assert!(!same_bytes(&b("abc"), &b("abd")));
    assert!(!same_bytes(&b("abc"), &b("ab")));
}

#[test]
fn options_follow_the_definition() {
    let def = PatchDefinition {
        use_grf_merging: true,
        target_grf_name: Some(b("data.grf")),
        include_checksums: false,
        entries: Vec::new(),
    };
    assert_eq!(def.validate(), Ok(()));
    let options = def.archive_options();
    assert_eq!(
        options,
        ArchiveOptions {
            merge_mode: true,
            target_container_name: Some(b("data.grf")),
            checksums_enabled: false,
        }
    );
    let archive = generate(&def, &Vec::new()).unwrap();
    assert_eq!(archive[6], 1);
}
