//! The patch definition: archive-wide options and the ordered entries.

use crate::format::{append_bytes, ArchiveOptions, OptionsView};
use vstd::prelude::*;

verus! {

/// One line of a patch definition: a path below the data directory, to be
/// updated from there or removed by the patcher.
#[derive(Clone, Debug, PartialEq, Eq)]
pub struct PatchEntry {
    pub relative_path: Vec<u8>,
    pub is_removed: bool,
}

/// A patch entry as a mathematical value.
pub struct EntryView {
    pub relative_path: Seq<u8>,
    pub is_removed: bool,
}

impl View for PatchEntry {
    type V = EntryView;

    open spec fn view(&self) -> EntryView {
        EntryView { relative_path: self.relative_path@, is_removed: self.is_removed }
    }
}

/// A patch definition.
#[derive(Clone, Debug, PartialEq, Eq)]
pub struct PatchDefinition {
    pub use_grf_merging: bool,
    pub target_grf_name: Option<Vec<u8>>,
    pub include_checksums: bool,
    pub entries: Vec<PatchEntry>,
}

/// A patch definition as a mathematical value.
pub struct DefinitionView {
    pub use_grf_merging: bool,
    pub target_grf_name: Option<Seq<u8>>,
    pub include_checksums: bool,
    pub entries: Seq<EntryView>,
}

impl View for PatchDefinition {
    type V = DefinitionView;

    open spec fn view(&self) -> DefinitionView {
        DefinitionView {
            use_grf_merging: self.use_grf_merging,
            target_grf_name: match self.target_grf_name {
                Some(name) => Some(name@),
                None => None,
            },
            include_checksums: self.include_checksums,
            entries: Seq::new(self.entries@.len(), |i: int| self.entries@[i]@),
        }
    }
}

/// Why a definition is refused.
#[derive(Clone, Copy, Debug, PartialEq, Eq)]
pub enum DefinitionError {
    /// Merging is enabled and the target container name is absent or empty.
    MissingTargetName,
    /// Some entry has an empty path.
    EmptyPath,
}

/// Merging has the name it needs.
pub open spec fn target_named(d: DefinitionView) -> bool {
    d.use_grf_merging ==> (d.target_grf_name matches Some(name) && name.len() > 0)
}

/// No entry has an empty path.
pub open spec fn paths_present(d: DefinitionView) -> bool {
    forall|i: int| 0 <= i < d.entries.len() ==> (#[trigger] d.entries[i]).relative_path.len() > 0
}

/// What validation answers: the missing name is reported before an empty
/// path.
pub open spec fn validated(d: DefinitionView) -> Result<(), DefinitionError> {
    if !target_named(d) {
        Err(DefinitionError::MissingTargetName)
    } else if !paths_present(d) {
        Err(DefinitionError::EmptyPath)
    } else {
        Ok(())
    }
}

/// The archive options of a definition, field by field.
pub open spec fn options_of(d: DefinitionView) -> OptionsView {
    OptionsView {
        merge_mode: d.use_grf_merging,
        target_container_name: d.target_grf_name,
        checksums_enabled: d.include_checksums,
    }
}

impl PatchDefinition {
    /// Checks the definition's invariants.
    pub fn validate(&self) -> (checked: Result<(), DefinitionError>)
        ensures
            checked == validated(self@),
    {
        if self.use_grf_merging {
            let named = match &self.target_grf_name {
                Some(name) => name.len() > 0,
                None => false,
            };
            if !named {
                return Err(DefinitionError::MissingTargetName);
            }
        }
        let mut i: usize = 0;
        while i < self.entries.len()
            invariant
                i <= self.entries.len(),
                target_named(self@),
                forall|k: int| 0 <= k < i ==> (#[trigger] self@.entries[k]).relative_path.len() > 0,
            decreases self.entries.len() - i,
        {
            if self.entries[i].relative_path.len() == 0 {
                proof {
                    assert(self@.entries[i as int].relative_path.len() == 0);
                }
                return Err(DefinitionError::EmptyPath);
            }
            i = i + 1;
        }
        Ok(())
    }

    /// The archive options that this definition asks for.
    pub fn archive_options(&self) -> (options: ArchiveOptions)
        ensures
            options@ == options_of(self@),
    {
        let name = match &self.target_grf_name {
            Some(name) => {
                let mut copy: Vec<u8> = Vec::new();
                append_bytes(&mut copy, name);
                Some(copy)
            },
            None => None,
        };
        ArchiveOptions {
            merge_mode: self.use_grf_merging,
            target_container_name: name,
            checksums_enabled: self.include_checksums,
        }
    }
}

} // verus!
