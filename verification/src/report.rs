//! The report on a comparison, and the exit code that goes with it.
use vstd::prelude::*;

use crate::diff::ComparisonView;
use crate::diff::StateComparison;
use crate::diff::attributes::AttrChange;
use crate::diff::attributes::AttrRow;
use crate::diff::attributes::attr_rows;
use crate::diff::attributes::text_of;
use crate::diff::outputs::OutputDiff;
use crate::diff::outputs::OutputRow;
use crate::diff::outputs::output_rows;
use crate::diff::resources::ResourceChangeKind;
use crate::diff::resources::ResourceDiff;
use crate::diff::resources::ResourceRow;
use crate::diff::resources::resource_rows;
use crate::text::decimal;
use crate::text::push_decimal;

verus! {

/// What stands for a side: its text, or a placeholder where the side is missing.
pub open spec fn side(text: Option<Seq<char>>) -> Seq<char> {
    match text {
        Some(t) => t,
        None => "<absent>"@,
    }
}

/// The change of a named thing, on one line behind an indentation.
pub open spec fn change_line(
    indent: Seq<char>,
    name: Seq<char>,
    old: Option<Seq<char>>,
    new: Option<Seq<char>>,
) -> Seq<char> {
    indent + name + ": "@ + side(old) + " -> "@ + side(new) + "\n"@
}

/// The lines on changed attributes.
pub open spec fn attr_lines(rows: Seq<AttrRow>) -> Seq<char>
    decreases rows.len(),
{
    if rows.len() == 0 {
        seq![]
    } else {
        let row = rows.last();
        attr_lines(rows.drop_last()) + change_line("      "@, row.path, row.old, row.new)
    }
}

/// The lines on one resource instance.
pub open spec fn resource_entry(row: ResourceRow) -> Seq<char> {
    match row.kind {
        ResourceChangeKind::Created => "  + "@ + row.address + " (created)\n"@,
        ResourceChangeKind::Destroyed => "  - "@ + row.address + " (destroyed)\n"@,
        ResourceChangeKind::Changed => "  ~ "@ + row.address + " ("@ + decimal(row.changes.len())
            + " attribute(s) changed)\n"@ + attr_lines(row.changes),
    }
}

/// The lines on resource instances.
pub open spec fn resource_lines(rows: Seq<ResourceRow>) -> Seq<char>
    decreases rows.len(),
{
    if rows.len() == 0 {
        seq![]
    } else {
        resource_lines(rows.drop_last()) + resource_entry(rows.last())
    }
}

/// The lines on outputs.
pub open spec fn output_lines(rows: Seq<OutputRow>) -> Seq<char>
    decreases rows.len(),
{
    if rows.len() == 0 {
        seq![]
    } else {
        let row = rows.last();
        output_lines(rows.drop_last()) + change_line("  "@, row.name, row.old, row.new)
    }
}

/// The warning that two states do not share a history, where they do not.
pub open spec fn lineage_warning(c: ComparisonView) -> Seq<char> {
    if c.lineage_matches {
        seq![]
    } else {
        "WARNING: state lineage differs ("@ + c.old_lineage + " vs "@ + c.new_lineage
            + ") — these snapshots are not from the same state history; a diff may not be meaningful.\n\n"@
    }
}

/// The part of a report on the serials.
pub open spec fn serial_line(c: ComparisonView) -> Seq<char> {
    "Serial: "@ + decimal(c.old_serial as nat) + " -> "@ + decimal(c.new_serial as nat) + "\n"@
}

/// The part of a report on resources.
pub open spec fn resource_part(rows: Seq<ResourceRow>) -> Seq<char> {
    if rows.len() == 0 {
        "\nNo resource changes.\n"@
    } else {
        "\nResource changes:\n"@ + resource_lines(rows)
    }
}

/// The part of a report on outputs.
pub open spec fn output_part(rows: Seq<OutputRow>) -> Seq<char> {
    if rows.len() == 0 {
        "\nNo output changes.\n"@
    } else {
        "\nOutput changes:\n"@ + output_lines(rows)
    }
}

/// The report on a comparison.
pub open spec fn report_text(c: ComparisonView) -> Seq<char> {
    lineage_warning(c) + serial_line(c) + resource_part(c.resources) + output_part(c.outputs)
}

/// Whether a comparison found a difference in resources or outputs.
pub open spec fn has_changes(c: ComparisonView) -> bool {
    c.resources.len() > 0 || c.outputs.len() > 0
}

/// Appends the change of a named thing.
fn push_change(
    out: &mut String,
    indent: &str,
    name: &str,
    old_text: &Option<String>,
    new_text: &Option<String>,
)
    ensures
        final(out)@ == old(out)@ + change_line(
            indent@,
            name@,
            text_of(*old_text),
            text_of(*new_text),
        ),
{
    out.push_str(indent);
    out.push_str(name);
    out.push_str(": ");
    match old_text {
        Some(t) => out.push_str(t.as_str()),
        None => out.push_str("<absent>"),
    }
    out.push_str(" -> ");
    match new_text {
        Some(t) => out.push_str(t.as_str()),
        None => out.push_str("<absent>"),
    }
    out.push_str("\n");
    assert(out@ =~= old(out)@ + change_line(indent@, name@, text_of(*old_text), text_of(*new_text)));
}

/// Appends the lines on changed attributes.
fn push_attr_changes(out: &mut String, changes: &Vec<AttrChange>)
    ensures
        final(out)@ == old(out)@ + attr_lines(attr_rows(changes@)),
{
    let ghost rows = attr_rows(changes@);
    let mut i: usize = 0;
    assert(rows.take(0) =~= seq![]);
    assert(out@ =~= old(out)@ + attr_lines(rows.take(0)));
    while i < changes.len()
        invariant
            i <= changes@.len(),
            rows == attr_rows(changes@),
            out@ == old(out)@ + attr_lines(rows.take(i as int)),
        decreases changes@.len() - i,
    {
        let ghost had = out@;
        let change = &changes[i];
        push_change(out, "      ", change.path.as_str(), &change.old, &change.new);
        proof {
            let line = change_line("      "@, change@.path, change@.old, change@.new);
            assert(rows.take(i + 1).drop_last() =~= rows.take(i as int));
            assert(rows.take(i + 1).last() == change@);
            assert(had + line =~= old(out)@ + (attr_lines(rows.take(i as int)) + line));
        }
        i = i + 1;
    }
    assert(rows.take(changes@.len() as int) =~= rows);
}

/// Appends the lines on one resource instance.
fn push_resource(out: &mut String, diff: &ResourceDiff)
    ensures
        final(out)@ == old(out)@ + resource_entry(diff@),
{
    match diff.kind {
        ResourceChangeKind::Created => {
            out.push_str("  + ");
            out.push_str(diff.address.as_str());
            out.push_str(" (created)\n");
        },
        ResourceChangeKind::Destroyed => {
            out.push_str("  - ");
            out.push_str(diff.address.as_str());
            out.push_str(" (destroyed)\n");
        },
        ResourceChangeKind::Changed => {
            out.push_str("  ~ ");
            out.push_str(diff.address.as_str());
            out.push_str(" (");
            push_decimal(out, diff.attr_changes.len() as u64);
            out.push_str(" attribute(s) changed)\n");
            push_attr_changes(out, &diff.attr_changes);
        },
    }
    assert(out@ =~= old(out)@ + resource_entry(diff@));
}

/// Appends the part on resources.
fn push_resources(out: &mut String, diffs: &Vec<ResourceDiff>)
    ensures
        final(out)@ == old(out)@ + resource_part(resource_rows(diffs@)),
{
    if diffs.len() == 0 {
        out.push_str("\nNo resource changes.\n");
        return;
    }
    out.push_str("\nResource changes:\n");
    let ghost rows = resource_rows(diffs@);
    let ghost start = out@;
    let mut i: usize = 0;
    assert(rows.take(0) =~= seq![]);
    assert(out@ =~= start + resource_lines(rows.take(0)));
    while i < diffs.len()
        invariant
            i <= diffs@.len(),
            rows == resource_rows(diffs@),
            out@ == start + resource_lines(rows.take(i as int)),
        decreases diffs@.len() - i,
    {
        let ghost had = out@;
        let diff = &diffs[i];
        push_resource(out, diff);
        proof {
            let entry = resource_entry(diff@);
            assert(rows.take(i + 1).drop_last() =~= rows.take(i as int));
            assert(rows.take(i + 1).last() == diff@);
            assert(had + entry =~= start + (resource_lines(rows.take(i as int)) + entry));
        }
        i = i + 1;
    }
    assert(rows.take(diffs@.len() as int) =~= rows);
    assert(out@ =~= old(out)@ + resource_part(rows));
}

/// Appends the part on outputs.
fn push_outputs(out: &mut String, diffs: &Vec<OutputDiff>)
    ensures
        final(out)@ == old(out)@ + output_part(output_rows(diffs@)),
{
    if diffs.len() == 0 {
        out.push_str("\nNo output changes.\n");
        return;
    }
    out.push_str("\nOutput changes:\n");
    let ghost rows = output_rows(diffs@);
    let ghost start = out@;
    let mut i: usize = 0;
    assert(rows.take(0) =~= seq![]);
    assert(out@ =~= start + output_lines(rows.take(0)));
    while i < diffs.len()
        invariant
            i <= diffs@.len(),
            rows == output_rows(diffs@),
            out@ == start + output_lines(rows.take(i as int)),
        decreases diffs@.len() - i,
    {
        let ghost had = out@;
        let diff = &diffs[i];
        push_change(out, "  ", diff.name.as_str(), &diff.old, &diff.new);
        proof {
            let line = change_line("  "@, diff@.name, diff@.old, diff@.new);
            assert(rows.take(i + 1).drop_last() =~= rows.take(i as int));
            assert(rows.take(i + 1).last() == diff@);
            assert(had + line =~= start + (output_lines(rows.take(i as int)) + line));
        }
        i = i + 1;
    }
    assert(rows.take(diffs@.len() as int) =~= rows);
    assert(out@ =~= old(out)@ + output_part(rows));
}

/// The report on a comparison: a warning where the states do not share a history,
/// the serials, what changed in the resources, and what changed in the outputs.
pub fn report(comparison: &StateComparison) -> (text: String)
    ensures
        text@ == report_text(comparison@),
{
    let mut out = String::new();
    if !comparison.lineage_matches {
        out.push_str("WARNING: state lineage differs (");
        out.push_str(comparison.old_lineage.as_str());
        out.push_str(" vs ");
        out.push_str(comparison.new_lineage.as_str());
        out.push_str(
            ") — these snapshots are not from the same state history; a diff may not be meaningful.\n\n",
        );
    }
    assert(out@ =~= lineage_warning(comparison@));
    out.push_str("Serial: ");
    push_decimal(&mut out, comparison.old_serial);
    out.push_str(" -> ");
    push_decimal(&mut out, comparison.new_serial);
    out.push_str("\n");
    assert(out@ =~= lineage_warning(comparison@) + serial_line(comparison@));
    push_resources(&mut out, &comparison.resource_diffs);
    push_outputs(&mut out, &comparison.output_diffs);
    out
}

/// The exit code for a comparison: 1 where it found a difference, 0 where not.
pub fn exit_code(comparison: &StateComparison) -> (code: u8)
    ensures
        code == if has_changes(comparison@) {
            1u8
        } else {
            0u8
        },
{
    if comparison.resource_diffs.len() > 0 || comparison.output_diffs.len() > 0 {
        1
    } else {
        0
    }
}

} // verus!
