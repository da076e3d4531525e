//! What holds of every run of operations through a session.

use crate::checksum::crc32;
use crate::definition::{validated, DefinitionView, EntryView};
use crate::deflate::{zlib_stream, COMPRESSION_LEVEL};
use crate::encoder::{finished, normalized, stored_bytes, SessionView};
use crate::orchestrator::{
    after_entries, applied, applied_all, generated, initial, probe_at, recorded_descriptor,
    recorded_path, OrchestratorError,
};
use crate::resolver::{escapes_root, resolved, FoundView, OperationView, ProbeView};
use crate::toc::{distinct_paths, has_path, lemma_put, removal_descriptor, toc_get};
use vstd::prelude::*;

verus! {

/// Whether some operation of `ops` is recorded under `path`.
pub open spec fn names_path(ops: Seq<OperationView>, path: Seq<u8>) -> bool {
    exists|i: int| 0 <= i < ops.len() && recorded_path(#[trigger] ops[i]) == path
}

/// The payload bytes that the operations of `ops` write, in order: the
/// stored bytes of each update, and nothing for a removal.
pub open spec fn payload_of(ops: Seq<OperationView>) -> Seq<u8>
    decreases ops.len(),
{
    if ops.len() == 0 {
        Seq::empty()
    } else {
        payload_of(ops.drop_last()) + match ops.last() {
            OperationView::Update { content, .. } => stored_bytes(
                content,
                zlib_stream(content, COMPRESSION_LEVEL),
            ),
            OperationView::Removal { .. } => Seq::empty(),
        }
    }
}

/// A path is named by `ops` exactly if the last operation names it or one
/// before the last does.
proof fn lemma_names_path_last(ops: Seq<OperationView>, path: Seq<u8>)
    requires
        ops.len() > 0,
    ensures
        names_path(ops, path) <==> (recorded_path(ops.last()) == path || names_path(
            ops.drop_last(),
            path,
        )),
{
    let front = ops.drop_last();
    if names_path(front, path) {
        let i = choose|i: int| 0 <= i < front.len() && recorded_path(#[trigger] front[i]) == path;
        assert(ops[i] == front[i]);
    }
    if names_path(ops, path) && recorded_path(ops.last()) != path {
        let i = choose|i: int| 0 <= i < ops.len() && recorded_path(#[trigger] ops[i]) == path;
        assert(front[i] == ops[i]);
    }
    if recorded_path(ops.last()) == path {
        assert(recorded_path(ops[ops.len() - 1]) == path);
    }
}

/// One descriptor per distinct path: after any run of operations no path
/// is recorded twice, and the paths recorded are those recorded before
/// together with those that the operations name.
pub proof fn lemma_one_descriptor_per_path(v: SessionView, ops: Seq<OperationView>)
    requires
        distinct_paths(v.toc),
    ensures
        distinct_paths(applied_all(v, ops).toc),
        forall|path: Seq<u8>| #[trigger]
            has_path(applied_all(v, ops).toc, path) <==> (has_path(v.toc, path) || names_path(
                ops,
                path,
            )),
    decreases ops.len(),
{
    if ops.len() > 0 {
        let front = ops.drop_last();
        let before = applied_all(v, front);
        lemma_one_descriptor_per_path(v, front);
        lemma_put(before.toc, recorded_path(ops.last()), recorded_descriptor(before, ops.last()));
        assert forall|path: Seq<u8>| #[trigger]
            has_path(applied_all(v, ops).toc, path) <==> (has_path(v.toc, path) || names_path(
                ops,
                path,
            )) by {
            lemma_names_path_last(ops, path);
            assert(has_path(before.toc, path) <==> (has_path(v.toc, path) || names_path(
                front,
                path,
            )));
        }
    } else {
        assert forall|path: Seq<u8>| !names_path(ops, path) by {}
    }
}

/// Last write wins: the operation at `j` determines the descriptor of its
/// path if no later operation names that path. The descriptor is the one
/// the operation recorded in the state that the operations before it left.
pub proof fn lemma_last_write_wins(v: SessionView, ops: Seq<OperationView>, j: int)
    requires
        distinct_paths(v.toc),
        0 <= j < ops.len(),
        !names_path(ops.skip(j + 1), recorded_path(ops[j])),
    ensures
        toc_get(applied_all(v, ops).toc, recorded_path(ops[j])) == Some(
            recorded_descriptor(applied_all(v, ops.take(j)), ops[j]),
        ),
    decreases ops.len(),
{
    let front = ops.drop_last();
    let before = applied_all(v, front);
    lemma_one_descriptor_per_path(v, front);
    lemma_put(before.toc, recorded_path(ops.last()), recorded_descriptor(before, ops.last()));
    if j < ops.len() - 1 {
        let rest = ops.skip(j + 1);
        lemma_names_path_last(rest, recorded_path(ops[j]));
        assert(rest.last() == ops.last());
        assert(rest.drop_last() =~= front.skip(j + 1));
        assert(front[j] == ops[j]);
        assert(front.take(j) =~= ops.take(j));
        lemma_last_write_wins(v, front, j);
    } else {
        assert(ops.take(j) =~= front);
    }
}

/// The payload region grows by the stored bytes of the updates alone, and
/// the options stay as they were.
pub proof fn lemma_payload_written(v: SessionView, ops: Seq<OperationView>)
    ensures
        applied_all(v, ops).payload == v.payload + payload_of(ops),
        applied_all(v, ops).options == v.options,
    decreases ops.len(),
{
    if ops.len() > 0 {
        lemma_payload_written(v, ops.drop_last());
        assert(applied_all(v, ops).payload =~= v.payload + payload_of(ops));
    } else {
        assert(v.payload =~= v.payload + payload_of(ops));
    }
}

/// A removal writes no payload byte, and its path is then recorded with
/// the removal descriptor, whose offset and sizes are zero.
pub proof fn lemma_removal_is_empty(v: SessionView, path: Seq<u8>)
    requires
        distinct_paths(v.toc),
    ensures
        applied(v, OperationView::Removal { relative_path: path }).payload == v.payload,
        toc_get(applied(v, OperationView::Removal { relative_path: path }).toc, normalized(path))
            == Some(removal_descriptor()),
        removal_descriptor().compressed_size == 0,
        removal_descriptor().uncompressed_size == 0,
        payload_of(seq![OperationView::Removal { relative_path: path }]) == Seq::<u8>::empty(),
{
    lemma_put(v.toc, normalized(path), removal_descriptor());
    let one = seq![OperationView::Removal { relative_path: path }];
    reveal_with_fuel(payload_of, 2);
    assert(one.drop_last() =~= Seq::<OperationView>::empty());
    assert(payload_of(one) =~= Seq::<u8>::empty());
}

/// An update is recorded with the checksum of its content exactly when
/// checksums are enabled, and with the content's length.
pub proof fn lemma_update_checksum(v: SessionView, path: Seq<u8>, content: Seq<u8>)
    requires
        distinct_paths(v.toc),
    ensures
        toc_get(
            applied(v, OperationView::Update { relative_path: path, content }).toc,
            normalized(path),
        ) matches Some(d) && d.kind is Update && d.checksum == (if v.options.checksums_enabled {
            Some(crc32(content))
        } else {
            None
        }) && d.uncompressed_size == content.len() as u64,
{
    let op = OperationView::Update { relative_path: path, content };
    lemma_put(v.toc, normalized(path), recorded_descriptor(v, op));
}

/// A directory entry records exactly the files found below it: resolved
/// into a table that was empty, it leaves one record per distinct path
/// found, and no other.
pub proof fn lemma_directory_recorded(v: SessionView, entry: EntryView, files: Seq<FoundView>)
    requires
        v.toc.len() == 0,
        !entry.is_removed,
        !escapes_root(entry.relative_path),
    ensures
        resolved(entry, ProbeView::Directory(files)) matches Some(ops) && ops.len() == files.len()
            && distinct_paths(applied_all(v, ops).toc) && forall|path: Seq<u8>| #[trigger]
            has_path(applied_all(v, ops).toc, path) <==> exists|i: int|
                0 <= i < files.len() && normalized((#[trigger] files[i]).relative_path) == path,
{
    let ops = resolved(entry, ProbeView::Directory(files)).unwrap();
    lemma_one_descriptor_per_path(v, ops);
    assert forall|path: Seq<u8>| #[trigger]
        has_path(applied_all(v, ops).toc, path) <==> exists|i: int|
            0 <= i < files.len() && normalized((#[trigger] files[i]).relative_path) == path by {
        if names_path(ops, path) {
            let i = choose|i: int| 0 <= i < ops.len() && recorded_path(#[trigger] ops[i]) == path;
            assert(normalized(files[i].relative_path) == path);
        }
        if exists|i: int|
            0 <= i < files.len() && normalized((#[trigger] files[i]).relative_path) == path {
            let i = choose|i: int|
                0 <= i < files.len() && normalized((#[trigger] files[i]).relative_path) == path;
            assert(recorded_path(ops[i]) == path);
        }
    }
}

/// The operations of the first `n` entries, in order, or `None` if one of
/// them could not be resolved.
pub open spec fn operations_until(entries: Seq<EntryView>, probes: Seq<ProbeView>, n: nat) -> Option<
    Seq<OperationView>,
>
    decreases n,
{
    if n == 0 {
        Some(Seq::empty())
    } else {
        match operations_until(entries, probes, (n - 1) as nat) {
            None => None,
            Some(front) => match resolved(entries[n - 1], probe_at(probes, n - 1)) {
                None => None,
                Some(ops) => Some(front + ops),
            },
        }
    }
}

/// Applying two runs of operations in turn is applying them as one run.
pub proof fn lemma_applied_all_concat(
    v: SessionView,
    first: Seq<OperationView>,
    second: Seq<OperationView>,
)
    ensures
        applied_all(v, first + second) == applied_all(applied_all(v, first), second),
    decreases second.len(),
{
    if second.len() == 0 {
        assert(first + second =~= first);
    } else {
        lemma_applied_all_concat(v, first, second.drop_last());
        assert((first + second).drop_last() =~= first + second.drop_last());
        assert((first + second).last() == second.last());
    }
}

/// Operations reach the encoder in resolver order: the state after the
/// first `n` entries is the state after their operations, entry by entry
/// and, within an entry, in the order resolved.
pub proof fn lemma_run_in_order(
    v: SessionView,
    entries: Seq<EntryView>,
    probes: Seq<ProbeView>,
    n: nat,
)
    ensures
        after_entries(v, entries, probes, n) == match operations_until(entries, probes, n) {
            None => None,
            Some(ops) => Some(applied_all(v, ops)),
        },
    decreases n,
{
    if n > 0 {
        lemma_run_in_order(v, entries, probes, (n - 1) as nat);
        match operations_until(entries, probes, (n - 1) as nat) {
            None => {},
            Some(front) => match resolved(entries[n - 1], probe_at(probes, n - 1)) {
                None => {},
                Some(ops) => {
                    lemma_applied_all_concat(v, front, ops);
                },
            },
        }
    }
}

/// The table of a generated archive: for a valid definition whose entries
/// all resolve, the archive is the finished state after all operations; its
/// table holds one record per distinct path that an operation names, and
/// no other; and each path carries the descriptor of the last operation
/// that names it.
pub proof fn lemma_generated_table(d: DefinitionView, probes: Seq<ProbeView>)
    requires
        validated(d).is_ok(),
        operations_until(d.entries, probes, d.entries.len()).is_some(),
    ensures
        ({
            let ops = operations_until(d.entries, probes, d.entries.len()).unwrap();
            let state = applied_all(initial(d), ops);
            &&& generated(d, probes) == Ok::<Seq<u8>, OrchestratorError>(finished(state))
            &&& distinct_paths(state.toc)
            &&& forall|path: Seq<u8>| #[trigger] has_path(state.toc, path) <==> names_path(ops, path)
            &&& forall|j: int|
                0 <= j < ops.len() && !names_path(
                    ops.skip(j + 1),
                    recorded_path(#[trigger] ops[j]),
                ) ==> toc_get(state.toc, recorded_path(ops[j])) == Some(
                    recorded_descriptor(applied_all(initial(d), ops.take(j)), ops[j]),
                )
        }),
{
    let ops = operations_until(d.entries, probes, d.entries.len()).unwrap();
    let state = applied_all(initial(d), ops);
    lemma_run_in_order(initial(d), d.entries, probes, d.entries.len());
    lemma_one_descriptor_per_path(initial(d), ops);
    assert forall|path: Seq<u8>| #[trigger]
        has_path(state.toc, path) <==> names_path(ops, path) by {
        assert(!has_path(initial(d).toc, path));
    }
    assert forall|j: int|
        0 <= j < ops.len() && !names_path(
            ops.skip(j + 1),
            recorded_path(#[trigger] ops[j]),
        ) implies toc_get(state.toc, recorded_path(ops[j])) == Some(
        recorded_descriptor(applied_all(initial(d), ops.take(j)), ops[j]),
    ) by {
        lemma_last_write_wins(initial(d), ops, j);
    }
}

/// Generation is repeatable: the same definition and the same findings
/// give the same outcome, byte for byte.
pub proof fn lemma_generation_repeats(
    first: DefinitionView,
    first_probes: Seq<ProbeView>,
    second: DefinitionView,
    second_probes: Seq<ProbeView>,
)
    requires
        first.use_grf_merging == second.use_grf_merging,
        first.target_grf_name == second.target_grf_name,
        first.include_checksums == second.include_checksums,
        first.entries =~= second.entries,
        first_probes =~= second_probes,
    ensures
        generated(first, first_probes) == generated(second, second_probes),
{
}

} // verus!
