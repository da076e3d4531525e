//! The patch orchestrator: validates a definition, opens a session, resolves
//! each entry in order, forwards every operation to the encoder, and
//! finishes the archive. The first failure ends the run.

use crate::definition::{
    options_of, validated, DefinitionError, DefinitionView, EntryView, PatchDefinition, PatchEntry,
};
use crate::deflate::{zlib_stream, COMPRESSION_LEVEL};
use crate::encoder::{
    after_removal, after_update, finished, normalized, update_descriptor, ArchiveSession,
    EncodeError, SessionView,
};
use crate::resolver::{
    operations_of, resolve, resolved, FileOperation, OperationView, PathProbe, ProbeView,
    ResolutionError,
};
use crate::toc::{removal_descriptor, EntryDescriptor};
use vstd::prelude::*;

verus! {

/// Why a run failed.
#[derive(Clone, Copy, Debug, PartialEq, Eq)]
pub enum OrchestratorError {
    Definition(DefinitionError),
    Resolution(ResolutionError),
    Encode(EncodeError),
}

/// The state after one operation.
pub open spec fn applied(v: SessionView, op: OperationView) -> SessionView {
    match op {
        OperationView::Update { relative_path, content } => after_update(
            v,
            relative_path,
            content,
            zlib_stream(content, COMPRESSION_LEVEL),
        ),
        OperationView::Removal { relative_path } => after_removal(v, relative_path),
    }
}

/// The state after the operations of `ops`, in order.
pub open spec fn applied_all(v: SessionView, ops: Seq<OperationView>) -> SessionView
    decreases ops.len(),
{
    if ops.len() == 0 {
        v
    } else {
        applied(applied_all(v, ops.drop_last()), ops.last())
    }
}

/// The path under which an operation is recorded.
pub open spec fn recorded_path(op: OperationView) -> Seq<u8> {
    match op {
        OperationView::Update { relative_path, .. } => normalized(relative_path),
        OperationView::Removal { relative_path } => normalized(relative_path),
    }
}

/// The descriptor that an operation records when applied in state `v`.
pub open spec fn recorded_descriptor(v: SessionView, op: OperationView) -> EntryDescriptor {
    match op {
        OperationView::Update { content, .. } => update_descriptor(
            v,
            content,
            zlib_stream(content, COMPRESSION_LEVEL),
        ),
        OperationView::Removal { .. } => removal_descriptor(),
    }
}

/// The probe for the entry at `i`; an entry without one found nothing.
pub open spec fn probe_at(probes: Seq<ProbeView>, i: int) -> ProbeView {
    if 0 <= i < probes.len() {
        probes[i]
    } else {
        ProbeView::Missing
    }
}

/// The state after the first `n` entries, or `None` if one of them could
/// not be resolved.
pub open spec fn after_entries(
    v: SessionView,
    entries: Seq<EntryView>,
    probes: Seq<ProbeView>,
    n: nat,
) -> Option<SessionView>
    decreases n,
{
    if n == 0 {
        Some(v)
    } else {
        match after_entries(v, entries, probes, (n - 1) as nat) {
            None => None,
            Some(state) => match resolved(entries[n - 1], probe_at(probes, n - 1)) {
                None => None,
                Some(ops) => Some(applied_all(state, ops)),
            },
        }
    }
}

/// The state of a session that has just begun.
pub open spec fn initial(d: DefinitionView) -> SessionView {
    SessionView { options: options_of(d), payload: Seq::empty(), toc: Seq::empty() }
}

/// The outcome of a run: the archive, or the first failure.
pub open spec fn generated(d: DefinitionView, probes: Seq<ProbeView>) -> Result<
    Seq<u8>,
    OrchestratorError,
> {
    match validated(d) {
        Err(e) => Err(OrchestratorError::Definition(e)),
        Ok(_) => match after_entries(initial(d), d.entries, probes, d.entries.len()) {
            None => Err(OrchestratorError::Resolution(ResolutionError::InvalidPath)),
            Some(state) => Ok(finished(state)),
        },
    }
}

/// The probes as mathematical values, in the same order.
pub open spec fn probes_of(probes: Seq<PathProbe>) -> Seq<ProbeView> {
    Seq::new(probes.len(), |i: int| probes[i]@)
}

/// Validates the definition and opens a session with its options. Nothing
/// has been written when this fails.
pub fn start(definition: &PatchDefinition) -> (opened: Result<ArchiveSession, OrchestratorError>)
    ensures
        match opened {
            Ok(session) => validated(definition@).is_ok() && session.wf() && session@ == initial(
                definition@,
            ),
            Err(e) => validated(definition@) matches Err(cause) && e
                == OrchestratorError::Definition(cause),
        },
{
    match definition.validate() {
        Err(cause) => Err(OrchestratorError::Definition(cause)),
        Ok(_) => match ArchiveSession::begin(definition.archive_options()) {
            Ok(session) => Ok(session),
            Err(cause) => Err(OrchestratorError::Encode(cause)),
        },
    }
}

/// Forwards one operation to the encoder.
pub fn apply_operation(session: &mut ArchiveSession, op: &FileOperation)
    requires
        old(session).wf(),
    ensures
        final(session).wf(),
        final(session)@ == applied(old(session)@, op@),
{
    match op {
        FileOperation::Update { relative_path, content } => {
            session.append_update(relative_path, content);
        },
        FileOperation::Removal { relative_path } => {
            session.append_removal(relative_path);
        },
    }
}

/// Forwards the operations of `ops` to the encoder, in order.
pub fn apply_operations(session: &mut ArchiveSession, ops: &Vec<FileOperation>)
    requires
        old(session).wf(),
    ensures
        final(session).wf(),
        final(session)@ == applied_all(old(session)@, operations_of(ops@)),
{
    let ghost all = operations_of(ops@);
    let ghost start = session@;
    let mut i: usize = 0;
    while i < ops.len()
        invariant
            i <= ops.len(),
            all == operations_of(ops@),
            session.wf(),
            session@ == applied_all(start, all.subrange(0, i as int)),
        decreases ops.len() - i,
    {
        apply_operation(session, &ops[i]);
        proof {
            let next = all.subrange(0, i + 1);
            assert(next.drop_last() =~= all.subrange(0, i as int));
            assert(next.last() == ops@[i as int]@);
        }
        i = i + 1;
    }
    proof {
        assert(all.subrange(0, i as int) =~= all);
    }
}

/// Resolves one entry against its probe and forwards its operations. On
/// failure the session is as it was.
pub fn apply_entry(session: &mut ArchiveSession, entry: &PatchEntry, probe: &PathProbe) -> (outcome:
    Result<(), OrchestratorError>)
    requires
        old(session).wf(),
    ensures
        final(session).wf(),
        match outcome {
            Ok(_) => resolved(entry@, probe@) matches Some(ops) && final(session)@ == applied_all(
                old(session)@,
                ops,
            ),
            Err(e) => resolved(entry@, probe@).is_none() && final(session)@ == old(session)@ && e
                == OrchestratorError::Resolution(ResolutionError::InvalidPath),
        },
{
    match resolve(entry, probe) {
        Err(cause) => Err(OrchestratorError::Resolution(cause)),
        Ok(ops) => {
            apply_operations(session, &ops);
            Ok(())
        },
    }
}

/// Generates the archive of `definition`, where `probes[i]` tells what was
/// found at the path of entry `i`. An entry without a probe found nothing.
pub fn generate(definition: &PatchDefinition, probes: &Vec<PathProbe>) -> (outcome: Result<
    Vec<u8>,
    OrchestratorError,
>)
    ensures
        match outcome {
            Ok(archive) => generated(definition@, probes_of(probes@)) == Ok::<
                Seq<u8>,
                OrchestratorError,
            >(archive@),
            Err(e) => generated(definition@, probes_of(probes@)) == Err::<
                Seq<u8>,
                OrchestratorError,
            >(e),
        },
{
    let mut session = match start(definition) {
        Err(e) => {
            return Err(e);
        },
        Ok(session) => session,
    };
    let ghost d = definition@;
    let ghost found = probes_of(probes@);
    let nothing = PathProbe::Missing;
    let mut i: usize = 0;
    while i < definition.entries.len()
        invariant
            i <= definition.entries.len(),
            d == definition@,
            found == probes_of(probes@),
            nothing@ == ProbeView::Missing,
            validated(d).is_ok(),
            session.wf(),
            after_entries(initial(d), d.entries, found, i as nat) == Some(session@),
        decreases definition.entries.len() - i,
    {
        let probe = if i < probes.len() {
            &probes[i]
        } else {
            &nothing
        };
        proof {
            assert(probe@ == probe_at(found, i as int));
            assert(definition.entries@[i as int]@ == d.entries[i as int]);
        }
        match apply_entry(&mut session, &definition.entries[i], probe) {
            Err(e) => {
                proof {
                    lemma_failure_stays(initial(d), d.entries, found, (i + 1) as nat, d.entries.len());
                }
                return Err(e);
            },
            Ok(_) => {},
        }
        i = i + 1;
    }
    Ok(session.finish())
}

/// Once an entry has failed, the run has failed.
pub proof fn lemma_failure_stays(
    v: SessionView,
    entries: Seq<EntryView>,
    probes: Seq<ProbeView>,
    n: nat,
    m: nat,
)
    requires
        n <= m,
        after_entries(v, entries, probes, n).is_none(),
    ensures
        after_entries(v, entries, probes, m).is_none(),
    decreases m,
{
    if n < m {
        lemma_failure_stays(v, entries, probes, n, (m - 1) as nat);
    }
}

} // verus!
