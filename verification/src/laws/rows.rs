//! What the rows of a comparison say: every change has its row, every row a change.
use vstd::prelude::*;

use crate::diff::ComparisonView;
use crate::diff::attributes::AttrRow;
use crate::diff::attributes::attr_row;
use crate::diff::attributes::is_attr_diff;
use crate::diff::attributes::leaf_map;
use crate::diff::attributes::no_attr_rows;
use crate::diff::attributes::row_paths;
use crate::diff::is_comparison;
use crate::diff::outputs::OutputRow;
use crate::diff::outputs::is_output_diff;
use crate::diff::outputs::output_row;
use crate::diff::outputs::output_text;
use crate::diff::outputs::row_names;
use crate::diff::resources::ResourceChangeKind;
use crate::diff::resources::ResourceRow;
use crate::diff::resources::addressed;
use crate::diff::resources::all_addressed;
use crate::diff::resources::instances_by_address;
use crate::diff::resources::is_resource_diff;
use crate::diff::resources::is_resource_row;
use crate::diff::resources::row_addresses;
use crate::json::compact_text;
use crate::json::same;
use crate::laws::flattening::scalar_text;
use crate::laws::matching::overlay_over;
use crate::laws::matching::own_instances;
use crate::laws::paths::last_of_key;
use crate::laws::paths::overlay_contents;
use crate::map::overlay_concat;
use crate::report::has_changes;
use crate::sensitive::sensitive;
use crate::state::OutputView;
use crate::state::ResourceView;
use crate::state::StateView;
use crate::state::address;
use crate::text::precedes;
use crate::value::JsonView;

verus! {

/// What a row shows of a text on a path: the text itself, the fixed marker where the
/// path is sensitive, and nothing where there is no text.
pub open spec fn attr_side(path: Seq<char>, m: Map<Seq<char>, Seq<char>>) -> Option<Seq<char>> {
    if !m.contains_key(path) {
        None
    } else if sensitive(path) {
        Some("(sensitive value, redacted)"@)
    } else {
        Some(m[path])
    }
}

/// Whether two flat attribute trees differ on a path: only one has a text there, or they
/// have different ones.
pub open spec fn texts_differ(
    old: Map<Seq<char>, Seq<char>>,
    new: Map<Seq<char>, Seq<char>>,
    path: Seq<char>,
) -> bool {
    ||| old.contains_key(path) != new.contains_key(path)
    ||| old.contains_key(path) && old[path] != new[path]
}

/// Every path on which two attribute trees differ, sensitive or not, has its row, which
/// shows both sides.
pub proof fn changed_attribute_has_its_row(
    old: Map<Seq<char>, Seq<char>>,
    new: Map<Seq<char>, Seq<char>>,
    rows: Seq<AttrRow>,
    path: Seq<char>,
)
    requires
        is_attr_diff(old, new, rows),
        texts_differ(old, new, path),
    ensures
        rows.contains(
            AttrRow { path, old: attr_side(path, old), new: attr_side(path, new) },
        ),
{
    assert(old.get(path) != new.get(path));
    assert(row_paths(rows).contains(path));
    let i = choose|i: int| 0 <= i < rows.len() && row_paths(rows)[i] == path;
    assert(rows[i] == attr_row(path, old.get(path), new.get(path)));
}

/// Every row stands on a path on which two attribute trees differ and shows both sides,
/// and no two rows stand on the same path: they come in ascending order.
pub proof fn attribute_row_says_a_change(
    old: Map<Seq<char>, Seq<char>>,
    new: Map<Seq<char>, Seq<char>>,
    rows: Seq<AttrRow>,
    i: int,
)
    requires
        is_attr_diff(old, new, rows),
        0 <= i < rows.len(),
    ensures
        texts_differ(old, new, rows[i].path),
        rows[i].old == attr_side(rows[i].path, old),
        rows[i].new == attr_side(rows[i].path, new),
        forall|j: int| i < j < rows.len() ==> precedes(rows[i].path, (#[trigger] rows[j]).path),
{
    let path = rows[i].path;
    assert(row_paths(rows)[i] == path);
    assert(row_paths(rows).contains(path));
    assert(rows[i] == attr_row(path, old.get(path), new.get(path)));
    assert forall|j: int| i < j < rows.len() implies precedes(path, (#[trigger] rows[j]).path) by {
        assert(row_paths(rows)[j] == rows[j].path);
    }
}

/// An instance that is on both sides and whose attributes differ on a path, sensitive or
/// not, has a row that says so and that has a row for the path.
pub proof fn changed_instance_has_its_row(
    old: Map<Seq<char>, JsonView>,
    new: Map<Seq<char>, JsonView>,
    rows: Seq<ResourceRow>,
    at: Seq<char>,
    path: Seq<char>,
)
    requires
        is_resource_diff(old, new, rows),
        old.contains_key(at),
        new.contains_key(at),
        texts_differ(leaf_map(old[at]), leaf_map(new[at]), path),
    ensures
        exists|k: int|
            #![trigger rows[k]]
            {
                &&& 0 <= k < rows.len()
                &&& rows[k].address == at
                &&& rows[k].kind == ResourceChangeKind::Changed
                &&& rows[k].changes.contains(
                    AttrRow {
                        path,
                        old: attr_side(path, leaf_map(old[at])),
                        new: attr_side(path, leaf_map(new[at])),
                    },
                )
            },
{
    let o = leaf_map(old[at]);
    let n = leaf_map(new[at]);
    assert(o.get(path) != n.get(path));
    assert(row_addresses(rows).contains(at));
    let k = choose|k: int| 0 <= k < rows.len() && row_addresses(rows)[k] == at;
    assert(is_resource_row(old.get(at), new.get(at), rows[k]));
    changed_attribute_has_its_row(o, n, rows[k].changes, path);
}

/// An instance that is in the new state only has a row that says it was created, and one
/// that is in the old state only a row that says it was destroyed.
pub proof fn new_or_lost_instance_has_its_row(
    old: Map<Seq<char>, JsonView>,
    new: Map<Seq<char>, JsonView>,
    rows: Seq<ResourceRow>,
    at: Seq<char>,
)
    requires
        is_resource_diff(old, new, rows),
        old.contains_key(at) != new.contains_key(at),
    ensures
        rows.contains(
            ResourceRow {
                address: at,
                kind: if new.contains_key(at) {
                    ResourceChangeKind::Created
                } else {
                    ResourceChangeKind::Destroyed
                },
                changes: seq![],
            },
        ),
{
    assert(row_addresses(rows).contains(at));
    let k = choose|k: int| 0 <= k < rows.len() && row_addresses(rows)[k] == at;
    assert(is_resource_row(old.get(at), new.get(at), rows[k]));
    assert(rows[k].changes =~= seq![]);
}

/// Every row says what happened to the instance at its address, and no two rows have the
/// same address: they come in ascending order. A row on a changed instance has a row for
/// at least one path, and only for paths on which its attributes differ, in ascending
/// order too.
pub proof fn resource_row_says_a_change(
    old: Map<Seq<char>, JsonView>,
    new: Map<Seq<char>, JsonView>,
    rows: Seq<ResourceRow>,
    k: int,
)
    requires
        is_resource_diff(old, new, rows),
        0 <= k < rows.len(),
    ensures
        ({
            let at = rows[k].address;
            match rows[k].kind {
                ResourceChangeKind::Created => {
                    &&& !old.contains_key(at)
                    &&& new.contains_key(at)
                    &&& rows[k].changes.len() == 0
                },
                ResourceChangeKind::Destroyed => {
                    &&& old.contains_key(at)
                    &&& !new.contains_key(at)
                    &&& rows[k].changes.len() == 0
                },
                ResourceChangeKind::Changed => {
                    &&& old.contains_key(at)
                    &&& new.contains_key(at)
                    &&& rows[k].changes.len() > 0
                    &&& forall|i: int|
                        0 <= i < rows[k].changes.len() ==> {
                            let row = #[trigger] rows[k].changes[i];
                            &&& texts_differ(leaf_map(old[at]), leaf_map(new[at]), row.path)
                            &&& row.old == attr_side(row.path, leaf_map(old[at]))
                            &&& row.new == attr_side(row.path, leaf_map(new[at]))
                        }
                    &&& forall|i: int, j: int|
                        0 <= i < j < rows[k].changes.len() ==> precedes(
                            (#[trigger] rows[k].changes[i]).path,
                            (#[trigger] rows[k].changes[j]).path,
                        )
                },
            }
        }),
        forall|j: int|
            k < j < rows.len() ==> precedes(rows[k].address, (#[trigger] rows[j]).address),
{
    let at = rows[k].address;
    assert(row_addresses(rows)[k] == at);
    assert(row_addresses(rows).contains(at));
    assert(is_resource_row(old.get(at), new.get(at), rows[k]));
    if old.contains_key(at) && new.contains_key(at) {
        let o = leaf_map(old[at]);
        let n = leaf_map(new[at]);
        no_attr_rows(o, n, rows[k].changes);
        assert forall|i: int| 0 <= i < rows[k].changes.len() implies {
            let row = #[trigger] rows[k].changes[i];
            &&& texts_differ(o, n, row.path)
            &&& row.old == attr_side(row.path, o)
            &&& row.new == attr_side(row.path, n)
        } by {
            attribute_row_says_a_change(o, n, rows[k].changes, i);
        }
        assert forall|i: int, j: int| 0 <= i < j < rows[k].changes.len() implies precedes(
            (#[trigger] rows[k].changes[i]).path,
            (#[trigger] rows[k].changes[j]).path,
        ) by {
            attribute_row_says_a_change(o, n, rows[k].changes, i);
        }
    }
    assert forall|j: int| k < j < rows.len() implies precedes(at, (#[trigger] rows[j]).address) by {
        assert(row_addresses(rows)[j] == rows[j].address);
    }
}

/// Whether an instance is the last one with its address in a list of resources: none
/// behind it in its resource, and none in a later resource, has the same address.
pub open spec fn is_last_at(resources: Seq<ResourceView>, r: int, i: int) -> bool {
    &&& 0 <= r < resources.len()
    &&& 0 <= i < resources[r].instances.len()
    &&& forall|s: int, j: int|
        #![trigger resources[s].instances[j]]
        0 <= s < resources.len() && 0 <= j < resources[s].instances.len() && (s > r || (s == r && j
            > i)) ==> address(resources[s], resources[s].instances[j].index_key) != address(
            resources[r],
            resources[r].instances[i].index_key,
        )
}

/// At the address of an instance stand the attributes of the last instance with that
/// address.
pub proof fn last_instance_counts(resources: Seq<ResourceView>, r: int, i: int)
    requires
        is_last_at(resources, r, i),
    ensures
        instances_by_address(resources).get(
            address(resources[r], resources[r].instances[i].index_key),
        ) == Some(resources[r].instances[i].attributes),
    decreases resources.len(),
{
    let at = address(resources[r], resources[r].instances[i].index_key);
    let front = resources.drop_last();
    let last = resources.last();
    let s = addressed(last, last.instances);
    overlay_concat(Map::empty(), all_addressed(front), s);
    overlay_over(instances_by_address(front), s, at);
    overlay_contents(Map::empty(), s, at);
    if r == resources.len() - 1 {
        assert(s[i] == (at, resources[r].instances[i].attributes));
        assert forall|j: int| i < j < s.len() implies (#[trigger] s[j]).0 != at by {
            assert(s[j].0 == address(last, resources[r].instances[j].index_key));
        }
        assert(own_instances(last).get(at) == Some(s[i].1));
    } else {
        assert forall|j: int| 0 <= j < s.len() implies (#[trigger] s[j]).0 != at by {
            assert(s[j].0 == address(
                last,
                resources[resources.len() - 1].instances[j].index_key,
            ));
        }
        assert(own_instances(last).get(at) is None);
        assert(front[r] == resources[r]);
        assert forall|p: int, q: int|
            #![trigger front[p].instances[q]]
            0 <= p < front.len() && 0 <= q < front[p].instances.len() && (p > r || (p == r && q
                > i)) implies address(front[p], front[p].instances[q].index_key) != at by {
            assert(front[p] == resources[p]);
            assert(address(resources[p], resources[p].instances[q].index_key) != at);
        }
        last_instance_counts(front, r, i);
    }
}

/// What stands at an address are the attributes of an instance with that address, the
/// last one; where no instance has the address, nothing stands there.
pub proof fn every_address_is_of_an_instance(resources: Seq<ResourceView>, at: Seq<char>)
    requires
        instances_by_address(resources).contains_key(at),
    ensures
        exists|r: int, i: int|
            #![trigger resources[r].instances[i]]
            {
                &&& is_last_at(resources, r, i)
                &&& address(resources[r], resources[r].instances[i].index_key) == at
                &&& instances_by_address(resources)[at] == resources[r].instances[i].attributes
            },
    decreases resources.len(),
{
    if resources.len() > 0 {
        let front = resources.drop_last();
        let last = resources.last();
        let s = addressed(last, last.instances);
        overlay_concat(Map::empty(), all_addressed(front), s);
        overlay_over(instances_by_address(front), s, at);
        overlay_contents(Map::empty(), s, at);
        let i = last_of_key(s, at);
        let r = resources.len() - 1;
        if i >= 0 {
            assert forall|p: int, q: int|
                #![trigger resources[p].instances[q]]
                0 <= p < resources.len() && 0 <= q < resources[p].instances.len() && (p > r || (p
                    == r && q > i)) implies address(
                resources[p],
                resources[p].instances[q].index_key,
            ) != at by {
                assert(s[q].0 != at);
            }
            assert(is_last_at(resources, r, i));
            last_instance_counts(resources, r, i);
        } else {
            assert(own_instances(last).get(at) is None);
            every_address_is_of_an_instance(front, at);
            let (p, q) = choose|p: int, q: int|
                #![trigger front[p].instances[q]]
                {
                    &&& is_last_at(front, p, q)
                    &&& address(front[p], front[p].instances[q].index_key) == at
                    &&& instances_by_address(front)[at] == front[p].instances[q].attributes
                };
            assert(resources[p] == front[p]);
            assert forall|x: int, y: int|
                #![trigger resources[x].instances[y]]
                0 <= x < resources.len() && 0 <= y < resources[x].instances.len() && (x > p || (x
                    == p && y > q)) implies address(
                resources[x],
                resources[x].instances[y].index_key,
            ) != at by {
                if x < front.len() {
                    assert(front[x] == resources[x]);
                    assert(address(front[x], front[x].instances[y].index_key) != at);
                } else {
                    assert(s[y].0 != at);
                }
            }
            assert(is_last_at(resources, p, q));
            assert(resources[p].instances[q].attributes == instances_by_address(resources)[at]);
        }
    }
}

/// What a row shows of an output: the marker where it is sensitive, otherwise a string as
/// it is, another scalar as its text, and an array or object as JSON.
pub open spec fn output_side(m: Map<Seq<char>, OutputView>, name: Seq<char>) -> Option<Seq<char>> {
    if !m.contains_key(name) {
        None
    } else if m[name].sensitive {
        Some("(sensitive value, redacted)"@)
    } else if m[name].value is Array || m[name].value is Object {
        Some(compact_text(m[name].value))
    } else {
        scalar_text(m[name].value)
    }
}

/// An output shows as the marker where it is sensitive, otherwise a string as it is,
/// another scalar as its text, and an array or object as JSON.
pub proof fn outputs_are_shown_by_kind(output: OutputView)
    ensures
        output.sensitive ==> output_text(output) == "(sensitive value, redacted)"@,
        !output.sensitive ==> match output.value {
            JsonView::Array(_) => output_text(output) == compact_text(output.value),
            JsonView::Object(_) => output_text(output) == compact_text(output.value),
            _ => Some(output_text(output)) == scalar_text(output.value),
        },
{
}

/// Whether an output is on one side only, has values that are not equal, or is marked as
/// sensitive on one side only.
pub open spec fn output_changed(
    old: Map<Seq<char>, OutputView>,
    new: Map<Seq<char>, OutputView>,
    name: Seq<char>,
) -> bool {
    ||| old.contains_key(name) != new.contains_key(name)
    ||| old.contains_key(name) && new.contains_key(name) && !same(
        old[name].value,
        new[name].value,
    )
    ||| old.contains_key(name) && new.contains_key(name) && old[name].sensitive
        != new[name].sensitive
}

/// Every output that changed, sensitive or not, has its row, which shows both sides.
pub proof fn changed_output_has_its_row(
    old: Map<Seq<char>, OutputView>,
    new: Map<Seq<char>, OutputView>,
    rows: Seq<OutputRow>,
    name: Seq<char>,
)
    requires
        is_output_diff(old, new, rows),
        output_changed(old, new, name),
    ensures
        rows.contains(
            OutputRow { name, old: output_side(old, name), new: output_side(new, name) },
        ),
{
    assert(row_names(rows).contains(name));
    let i = choose|i: int| 0 <= i < rows.len() && row_names(rows)[i] == name;
    assert(rows[i] == output_row(name, old.get(name), new.get(name)));
    if old.contains_key(name) {
        outputs_are_shown_by_kind(old[name]);
    }
    if new.contains_key(name) {
        outputs_are_shown_by_kind(new[name]);
    }
}

/// Every row is on an output that changed and shows both sides, and no two rows are on
/// the same output: they come in ascending order of the names.
pub proof fn output_row_says_a_change(
    old: Map<Seq<char>, OutputView>,
    new: Map<Seq<char>, OutputView>,
    rows: Seq<OutputRow>,
    i: int,
)
    requires
        is_output_diff(old, new, rows),
        0 <= i < rows.len(),
    ensures
        output_changed(old, new, rows[i].name),
        rows[i].old == output_side(old, rows[i].name),
        rows[i].new == output_side(new, rows[i].name),
        forall|j: int| i < j < rows.len() ==> precedes(rows[i].name, (#[trigger] rows[j]).name),
{
    let name = rows[i].name;
    assert(row_names(rows)[i] == name);
    assert(row_names(rows).contains(name));
    assert(rows[i] == output_row(name, old.get(name), new.get(name)));
    if old.contains_key(name) {
        outputs_are_shown_by_kind(old[name]);
    }
    if new.contains_key(name) {
        outputs_are_shown_by_kind(new[name]);
    }
    assert forall|j: int| i < j < rows.len() implies precedes(name, (#[trigger] rows[j]).name) by {
        assert(row_names(rows)[j] == rows[j].name);
    }
}

/// A comparison carries the serials and lineages of the two states over, warns of a
/// mismatch exactly where both lineages are known and differ, and has the rows on all
/// instances and all outputs of the two states.
pub proof fn comparison_covers_the_states(old: StateView, new: StateView, c: ComparisonView)
    requires
        is_comparison(old, new, c),
    ensures
        c.old_serial == old.serial,
        c.new_serial == new.serial,
        c.old_lineage == old.lineage,
        c.new_lineage == new.lineage,
        !c.lineage_matches <==> old.lineage.len() > 0 && new.lineage.len() > 0 && old.lineage
            != new.lineage,
        is_resource_diff(
            instances_by_address(old.resources),
            instances_by_address(new.resources),
            c.resources,
        ),
        is_output_diff(old.outputs, new.outputs, c.outputs),
{
}

/// Drift of an instance is reported: where the last instance with an address in the old
/// state and the last one with it in the new state have attributes that differ on a path,
/// sensitive or not, the comparison has changes, among them a row on the address that says
/// it changed and shows the path.
pub proof fn drift_is_reported(
    old: StateView,
    new: StateView,
    c: ComparisonView,
    r: int,
    i: int,
    s: int,
    j: int,
    path: Seq<char>,
)
    requires
        is_comparison(old, new, c),
        is_last_at(old.resources, r, i),
        is_last_at(new.resources, s, j),
        address(old.resources[r], old.resources[r].instances[i].index_key) == address(
            new.resources[s],
            new.resources[s].instances[j].index_key,
        ),
        texts_differ(
            leaf_map(old.resources[r].instances[i].attributes),
            leaf_map(new.resources[s].instances[j].attributes),
            path,
        ),
    ensures
        has_changes(c),
        exists|k: int|
            #![trigger c.resources[k]]
            {
                &&& 0 <= k < c.resources.len()
                &&& c.resources[k].address == address(
                    old.resources[r],
                    old.resources[r].instances[i].index_key,
                )
                &&& c.resources[k].kind == ResourceChangeKind::Changed
                &&& c.resources[k].changes.contains(
                    AttrRow {
                        path,
                        old: attr_side(
                            path,
                            leaf_map(old.resources[r].instances[i].attributes),
                        ),
                        new: attr_side(
                            path,
                            leaf_map(new.resources[s].instances[j].attributes),
                        ),
                    },
                )
            },
{
    let at = address(old.resources[r], old.resources[r].instances[i].index_key);
    last_instance_counts(old.resources, r, i);
    last_instance_counts(new.resources, s, j);
    changed_instance_has_its_row(
        instances_by_address(old.resources),
        instances_by_address(new.resources),
        c.resources,
        at,
        path,
    );
}

/// A comparison has no changes exactly where the two states have instances at the same
/// addresses with the same texts on the same paths, and outputs of the same names with
/// equal values and the same marks.
pub proof fn no_changes_means_nothing_differs(old: StateView, new: StateView, c: ComparisonView)
    requires
        is_comparison(old, new, c),
    ensures
        has_changes(c) <==> c.resources.len() + c.outputs.len() > 0,
        !has_changes(c) <==> {
            let o = instances_by_address(old.resources);
            let n = instances_by_address(new.resources);
            &&& forall|at: Seq<char>| #[trigger] o.contains_key(at) <==> n.contains_key(at)
            &&& forall|at: Seq<char>, path: Seq<char>|
                o.contains_key(at) ==> !#[trigger] texts_differ(
                    leaf_map(o[at]),
                    leaf_map(n[at]),
                    path,
                )
            &&& forall|name: Seq<char>| !#[trigger] output_changed(old.outputs, new.outputs, name)
        },
{
    let o = instances_by_address(old.resources);
    let n = instances_by_address(new.resources);
    if !has_changes(c) {
        assert forall|at: Seq<char>| #[trigger] o.contains_key(at) <==> n.contains_key(at) by {
            if o.contains_key(at) != n.contains_key(at) {
                new_or_lost_instance_has_its_row(o, n, c.resources, at);
            }
        }
        assert forall|at: Seq<char>, path: Seq<char>|
            o.contains_key(at) implies !#[trigger] texts_differ(
            leaf_map(o[at]),
            leaf_map(n[at]),
            path,
        ) by {
            assert(n.contains_key(at));
            if texts_differ(leaf_map(o[at]), leaf_map(n[at]), path) {
                changed_instance_has_its_row(o, n, c.resources, at, path);
            }
        }
        assert forall|name: Seq<char>|
            !#[trigger] output_changed(old.outputs, new.outputs, name) by {
            if output_changed(old.outputs, new.outputs, name) {
                changed_output_has_its_row(old.outputs, new.outputs, c.outputs, name);
            }
        }
    } else if c.resources.len() > 0 {
        resource_row_says_a_change(o, n, c.resources, 0);
        let at = c.resources[0].address;
        assert(o.contains_key(at) || n.contains_key(at));
        if o.contains_key(at) && n.contains_key(at) {
            let row = c.resources[0].changes[0];
            assert(texts_differ(leaf_map(o[at]), leaf_map(n[at]), row.path));
        }
    } else {
        output_row_says_a_change(old.outputs, new.outputs, c.outputs, 0);
    }
}

} // verus!
