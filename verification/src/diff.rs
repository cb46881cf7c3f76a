//! The comparison of two states.
use vstd::prelude::*;

use crate::diff::outputs::OutputRow;
use crate::diff::outputs::is_output_diff;
use crate::diff::outputs::output_rows;
use crate::diff::resources::ResourceRow;
use crate::diff::resources::instances_by_address;
use crate::diff::resources::is_resource_diff;
use crate::diff::resources::resource_rows;
use crate::state::StateView;
use crate::state::TfState;

pub mod attributes;
pub mod outputs;
pub mod resources;

pub use crate::diff::attributes::AttrChange;
pub use crate::diff::attributes::diff_attributes;
pub use crate::diff::outputs::OutputDiff;
pub use crate::diff::outputs::diff_outputs;
pub use crate::diff::resources::ResourceChangeKind;
pub use crate::diff::resources::ResourceDiff;
pub use crate::diff::resources::diff_resources;
pub use crate::flatten::flatten;
pub use crate::sensitive::REDACTED;
pub use crate::sensitive::is_sensitive_path;

verus! {

/// What two states have in common and how they differ.
pub struct StateComparison {
    pub lineage_matches: bool,
    pub old_lineage: String,
    pub new_lineage: String,
    pub old_serial: u64,
    pub new_serial: u64,
    pub resource_diffs: Vec<ResourceDiff>,
    pub output_diffs: Vec<OutputDiff>,
}

/// What a [`StateComparison`] says.
pub struct ComparisonView {
    pub lineage_matches: bool,
    pub old_lineage: Seq<char>,
    pub new_lineage: Seq<char>,
    pub old_serial: u64,
    pub new_serial: u64,
    pub resources: Seq<ResourceRow>,
    pub outputs: Seq<OutputRow>,
}

impl View for StateComparison {
    type V = ComparisonView;

    open spec fn view(&self) -> ComparisonView {
        ComparisonView {
            lineage_matches: self.lineage_matches,
            old_lineage: self.old_lineage@,
            new_lineage: self.new_lineage@,
            old_serial: self.old_serial,
            new_serial: self.new_serial,
            resources: resource_rows(self.resource_diffs@),
            outputs: output_rows(self.output_diffs@),
        }
    }
}

/// Whether two lineages may belong to the same history: they are the same, or one
/// of them is not known.
pub open spec fn lineages_match(old: Seq<char>, new: Seq<char>) -> bool {
    old == new || old.len() == 0 || new.len() == 0
}

/// Whether a comparison is that of two states.
pub open spec fn is_comparison(old: StateView, new: StateView, c: ComparisonView) -> bool {
    &&& c.lineage_matches == lineages_match(old.lineage, new.lineage)
    &&& c.old_lineage == old.lineage
    &&& c.new_lineage == new.lineage
    &&& c.old_serial == old.serial
    &&& c.new_serial == new.serial
    &&& is_resource_diff(
        instances_by_address(old.resources),
        instances_by_address(new.resources),
        c.resources,
    )
    &&& is_output_diff(old.outputs, new.outputs, c.outputs)
}

/// Compares two states.
pub fn compare(old: &TfState, new: &TfState) -> (comparison: StateComparison)
    ensures
        is_comparison(old@, new@, comparison@),
{
    StateComparison {
        lineage_matches: old.lineage == new.lineage || old.lineage.as_str().is_empty()
            || new.lineage.as_str().is_empty(),
        old_lineage: old.lineage.clone(),
        new_lineage: new.lineage.clone(),
        old_serial: old.serial,
        new_serial: new.serial,
        resource_diffs: diff_resources(old.resources.as_slice(), new.resources.as_slice()),
        output_diffs: diff_outputs(&old.outputs, &new.outputs),
    }
}

} // verus!
