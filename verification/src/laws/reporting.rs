//! What a report says, line by line.
use vstd::prelude::*;

use crate::diff::ComparisonView;
use crate::diff::attributes::AttrRow;
use crate::diff::outputs::OutputRow;
use crate::diff::resources::ResourceChangeKind;
use crate::diff::resources::ResourceRow;
use crate::report::attr_lines;
use crate::report::has_changes;
use crate::report::output_lines;
use crate::report::report_text;
use crate::report::resource_lines;
use crate::text::decimal;

verus! {

/// A text, or the words for a missing one.
pub open spec fn or_absent(text: Option<Seq<char>>) -> Seq<char> {
    match text {
        Some(t) => t,
        None => "<absent>"@,
    }
}

/// The line on an attribute.
pub open spec fn line_on_attribute(row: AttrRow) -> Seq<char> {
    "      "@ + row.path + ": "@ + or_absent(row.old) + " -> "@ + or_absent(row.new) + "\n"@
}

/// The line on an output.
pub open spec fn line_on_output(row: OutputRow) -> Seq<char> {
    "  "@ + row.name + ": "@ + or_absent(row.old) + " -> "@ + or_absent(row.new) + "\n"@
}

/// The lines on a resource instance: one for the instance, and below it one for each
/// changed attribute.
pub open spec fn lines_on_instance(row: ResourceRow) -> Seq<char> {
    match row.kind {
        ResourceChangeKind::Created => "  + "@ + row.address + " (created)\n"@,
        ResourceChangeKind::Destroyed => "  - "@ + row.address + " (destroyed)\n"@,
        ResourceChangeKind::Changed => "  ~ "@ + row.address + " ("@ + decimal(row.changes.len())
            + " attribute(s) changed)\n"@ + row.changes.map_values(
            |r: AttrRow| line_on_attribute(r),
        ).flatten(),
    }
}

/// A report is, in this order: the warning where the lineages do not match, the line on
/// the serials, the lines on all instances that differ, or the sentence that there are
/// none, and the lines on all outputs that differ, or the sentence that there are none.
pub proof fn report_is_spelled_out(c: ComparisonView)
    ensures
        report_text(c) == (if c.lineage_matches {
            seq![]
        } else {
            "WARNING: state lineage differs ("@ + c.old_lineage + " vs "@ + c.new_lineage
                + ") — these snapshots are not from the same state history; a diff may not be meaningful.\n\n"@
        }) + ("Serial: "@ + decimal(c.old_serial as nat) + " -> "@ + decimal(c.new_serial as nat)
            + "\n"@) + (if c.resources.len() == 0 {
            "\nNo resource changes.\n"@
        } else {
            "\nResource changes:\n"@ + c.resources.map_values(
                |r: ResourceRow| lines_on_instance(r),
            ).flatten()
        }) + (if c.outputs.len() == 0 {
            "\nNo output changes.\n"@
        } else {
            "\nOutput changes:\n"@ + c.outputs.map_values(
                |r: OutputRow| line_on_output(r),
            ).flatten()
        }),
{
    resource_lines_joined(c.resources);
    output_lines_joined(c.outputs);
}

proof fn attr_lines_joined(rows: Seq<AttrRow>)
    ensures
        attr_lines(rows) == rows.map_values(|r: AttrRow| line_on_attribute(r)).flatten(),
    decreases rows.len(),
{
    let lines = rows.map_values(|r: AttrRow| line_on_attribute(r));
    lines.lemma_flatten_and_flatten_alt_are_equivalent();
    if rows.len() > 0 {
        let front = rows.drop_last().map_values(|r: AttrRow| line_on_attribute(r));
        attr_lines_joined(rows.drop_last());
        front.lemma_flatten_and_flatten_alt_are_equivalent();
        assert(lines.drop_last() =~= front);
    }
}

proof fn resource_lines_joined(rows: Seq<ResourceRow>)
    ensures
        resource_lines(rows) == rows.map_values(|r: ResourceRow| lines_on_instance(r)).flatten(),
    decreases rows.len(),
{
    let lines = rows.map_values(|r: ResourceRow| lines_on_instance(r));
    lines.lemma_flatten_and_flatten_alt_are_equivalent();
    if rows.len() > 0 {
        let front = rows.drop_last().map_values(|r: ResourceRow| lines_on_instance(r));
        resource_lines_joined(rows.drop_last());
        attr_lines_joined(rows.last().changes);
        front.lemma_flatten_and_flatten_alt_are_equivalent();
        assert(lines.drop_last() =~= front);
    }
}

proof fn output_lines_joined(rows: Seq<OutputRow>)
    ensures
        output_lines(rows) == rows.map_values(|r: OutputRow| line_on_output(r)).flatten(),
    decreases rows.len(),
{
    let lines = rows.map_values(|r: OutputRow| line_on_output(r));
    lines.lemma_flatten_and_flatten_alt_are_equivalent();
    if rows.len() > 0 {
        let front = rows.drop_last().map_values(|r: OutputRow| line_on_output(r));
        output_lines_joined(rows.drop_last());
        front.lemma_flatten_and_flatten_alt_are_equivalent();
        assert(lines.drop_last() =~= front);
    }
}

/// A comparison has changes exactly where it has a row on an instance or on an output.
pub proof fn rows_are_changes(c: ComparisonView)
    ensures
        has_changes(c) <==> c.resources.len() > 0 || c.outputs.len() > 0,
{
}

} // verus!
