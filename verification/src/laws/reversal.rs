//! What comparing two states the other way round does.
use vstd::prelude::*;

use crate::diff::ComparisonView;
use crate::diff::attributes::AttrRow;
use crate::diff::attributes::attr_row;
use crate::diff::attributes::is_attr_diff;
use crate::diff::attributes::leaf_map;
use crate::diff::attributes::row_paths;
use crate::diff::is_comparison;
use crate::diff::outputs::OutputRow;
use crate::diff::outputs::output_differs;
use crate::diff::outputs::output_row;
use crate::diff::outputs::row_names;
use crate::diff::resources::ResourceChangeKind;
use crate::diff::resources::ResourceRow;
use crate::diff::resources::instances_by_address;
use crate::diff::resources::is_resource_row;
use crate::diff::resources::resource_differs;
use crate::diff::resources::row_addresses;
use crate::laws::same_symmetric;
use crate::state::StateView;

verus! {

/// An attribute change seen from the other side.
pub open spec fn swapped_attr(row: AttrRow) -> AttrRow {
    AttrRow { path: row.path, old: row.new, new: row.old }
}

/// Attribute changes seen from the other side.
pub open spec fn swapped_attrs(rows: Seq<AttrRow>) -> Seq<AttrRow> {
    rows.map_values(|r: AttrRow| swapped_attr(r))
}

/// A kind of change seen from the other side.
pub open spec fn swapped_kind(kind: ResourceChangeKind) -> ResourceChangeKind {
    match kind {
        ResourceChangeKind::Created => ResourceChangeKind::Destroyed,
        ResourceChangeKind::Destroyed => ResourceChangeKind::Created,
        ResourceChangeKind::Changed => ResourceChangeKind::Changed,
    }
}

/// Resource changes seen from the other side.
pub open spec fn swapped_resources(rows: Seq<ResourceRow>) -> Seq<ResourceRow> {
    rows.map_values(
        |r: ResourceRow|
            ResourceRow {
                address: r.address,
                kind: swapped_kind(r.kind),
                changes: swapped_attrs(r.changes),
            },
    )
}

/// Output changes seen from the other side.
pub open spec fn swapped_outputs(rows: Seq<OutputRow>) -> Seq<OutputRow> {
    rows.map_values(|r: OutputRow| OutputRow { name: r.name, old: r.new, new: r.old })
}

/// A comparison seen from the other side.
pub open spec fn swapped(c: ComparisonView) -> ComparisonView {
    ComparisonView {
        lineage_matches: c.lineage_matches,
        old_lineage: c.new_lineage,
        new_lineage: c.old_lineage,
        old_serial: c.new_serial,
        new_serial: c.old_serial,
        resources: swapped_resources(c.resources),
        outputs: swapped_outputs(c.outputs),
    }
}

/// Swapping two attribute trees swaps the two sides of each change.
pub proof fn attr_diff_swaps(
    old: Map<Seq<char>, Seq<char>>,
    new: Map<Seq<char>, Seq<char>>,
    rows: Seq<AttrRow>,
)
    requires
        is_attr_diff(old, new, rows),
    ensures
        is_attr_diff(new, old, swapped_attrs(rows)),
{
    let back = swapped_attrs(rows);
    assert(row_paths(back) =~= row_paths(rows));
    assert forall|i: int| 0 <= i < back.len() implies {
        let path = (#[trigger] back[i]).path;
        back[i] == attr_row(path, new.get(path), old.get(path))
    } by {
        assert(back[i] == swapped_attr(rows[i]));
    }
}

/// Comparing two states the other way round turns the result around: what was
/// created is destroyed, what was destroyed is created, and old and new trade places.
pub proof fn comparison_swaps(old: StateView, new: StateView, c: ComparisonView)
    requires
        is_comparison(old, new, c),
    ensures
        is_comparison(new, old, swapped(c)),
{
    let d = swapped(c);
    let o = instances_by_address(old.resources);
    let n = instances_by_address(new.resources);
    assert(row_addresses(d.resources) =~= row_addresses(c.resources));
    assert forall|at: Seq<char>| #[trigger]
        row_addresses(d.resources).contains(at) <==> resource_differs(n.get(at), o.get(at)) by {
        assert(resource_differs(o.get(at), n.get(at)) == resource_differs(n.get(at), o.get(at)));
    }
    assert forall|i: int| 0 <= i < d.resources.len() implies {
        let at = (#[trigger] d.resources[i]).address;
        is_resource_row(n.get(at), o.get(at), d.resources[i])
    } by {
        let at = c.resources[i].address;
        assert(is_resource_row(o.get(at), n.get(at), c.resources[i]));
        if o.get(at) is Some && n.get(at) is Some {
            attr_diff_swaps(
                leaf_map(o.get(at)->0),
                leaf_map(n.get(at)->0),
                c.resources[i].changes,
            );
        }
    }
    assert(row_names(d.outputs) =~= row_names(c.outputs));
    assert forall|name: Seq<char>| #[trigger]
        row_names(d.outputs).contains(name) <==> output_differs(
            new.outputs.get(name),
            old.outputs.get(name),
        ) by {
        assert(row_names(c.outputs).contains(name) <==> output_differs(
            old.outputs.get(name),
            new.outputs.get(name),
        ));
        if old.outputs.get(name) is Some && new.outputs.get(name) is Some {
            same_symmetric(old.outputs.get(name)->0.value, new.outputs.get(name)->0.value);
        }
    }
    assert forall|i: int| 0 <= i < d.outputs.len() implies {
        let name = (#[trigger] d.outputs[i]).name;
        d.outputs[i] == output_row(name, new.outputs.get(name), old.outputs.get(name))
    } by {
        let name = c.outputs[i].name;
        assert(c.outputs[i] == output_row(name, old.outputs.get(name), new.outputs.get(name)));
    }
}

} // verus!
