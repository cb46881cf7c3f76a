//! What holds of comparisons as a whole.
use vstd::prelude::*;

use crate::diff::ComparisonView;
use crate::diff::attributes::leaf_map;
use crate::diff::attributes::no_attr_rows;
use crate::diff::is_comparison;
use crate::diff::outputs::output_differs;
use crate::diff::outputs::row_names;
use crate::diff::resources::ResourceChangeKind;
use crate::diff::resources::instances_by_address;
use crate::diff::resources::is_resource_row;
use crate::diff::resources::resource_differs;
use crate::diff::resources::row_addresses;
use crate::json::same;
use crate::laws::secrets::report_shows_no_secret;
use crate::report::has_changes;
use crate::state::StateView;
use crate::value::JsonView;

pub mod addresses;
pub mod contents;
pub mod equality;
pub mod flattening;
pub mod keywords;
pub mod matching;
pub mod paths;
pub mod reporting;
pub mod reversal;
pub mod rows;
pub mod secrets;
pub mod texts;

verus! {

/// A comparison finds changes exactly where the instance at some address or the
/// output of some name differs.
pub proof fn changes_are_found(old: StateView, new: StateView, c: ComparisonView)
    requires
        is_comparison(old, new, c),
    ensures
        has_changes(c) <==> {
            ||| exists|at: Seq<char>| #[trigger]
                resource_differs(
                    instances_by_address(old.resources).get(at),
                    instances_by_address(new.resources).get(at),
                )
            ||| exists|name: Seq<char>| #[trigger]
                output_differs(old.outputs.get(name), new.outputs.get(name))
        },
{
    let o = instances_by_address(old.resources);
    let n = instances_by_address(new.resources);
    if c.resources.len() > 0 {
        let at = row_addresses(c.resources)[0];
        assert(row_addresses(c.resources).contains(at));
        assert(resource_differs(o.get(at), n.get(at)));
    }
    if c.outputs.len() > 0 {
        let name = row_names(c.outputs)[0];
        assert(row_names(c.outputs).contains(name));
        assert(output_differs(old.outputs.get(name), new.outputs.get(name)));
    }
    if exists|at: Seq<char>| #[trigger] resource_differs(o.get(at), n.get(at)) {
        let at = choose|at: Seq<char>| #[trigger] resource_differs(o.get(at), n.get(at));
        assert(row_addresses(c.resources).contains(at));
    }
    if exists|name: Seq<char>| #[trigger]
        output_differs(old.outputs.get(name), new.outputs.get(name)) {
        let name = choose|name: Seq<char>| #[trigger]
            output_differs(old.outputs.get(name), new.outputs.get(name));
        assert(row_names(c.outputs).contains(name));
    }
}

/// A row says `Created` where the instance is in the new state only, `Destroyed`
/// where it is in the old state only, and `Changed` where it is in both.
pub proof fn kind_tells_the_sides(old: StateView, new: StateView, c: ComparisonView, i: int)
    requires
        is_comparison(old, new, c),
        0 <= i < c.resources.len(),
    ensures
        ({
            let at = c.resources[i].address;
            let before = instances_by_address(old.resources).contains_key(at);
            let after = instances_by_address(new.resources).contains_key(at);
            &&& c.resources[i].kind == ResourceChangeKind::Created <==> !before && after
            &&& c.resources[i].kind == ResourceChangeKind::Destroyed <==> before && !after
            &&& c.resources[i].kind == ResourceChangeKind::Changed <==> before && after
            &&& c.resources[i].changes.len() > 0 <==> before && after
        }),
{
    let at = c.resources[i].address;
    let o = instances_by_address(old.resources);
    let n = instances_by_address(new.resources);
    assert(row_addresses(c.resources)[i] == at);
    assert(row_addresses(c.resources).contains(at));
    assert(is_resource_row(o.get(at), n.get(at), c.resources[i]));
    if o.get(at) is Some && n.get(at) is Some {
        no_attr_rows(leaf_map(o.get(at)->0), leaf_map(n.get(at)->0), c.resources[i].changes);
    }
}

/// Every JSON value equals itself.
pub proof fn same_reflexive(v: JsonView)
    ensures
        same(v, v),
    decreases v,
{
    match v {
        JsonView::Array(items) => {
            assert forall|i: int| 0 <= i < items.len() implies same(#[trigger] items[i], items[i]) by {
                same_reflexive(items[i]);
            }
        },
        JsonView::Object(members) => {
            assert forall|i: int| 0 <= i < members.len() implies same(
                (#[trigger] members[i]).1,
                members[i].1,
            ) by {
                assert(decreases_to!(members => members[i]));
                assert(decreases_to!(members[i] => members[i].1));
                same_reflexive(members[i].1);
            }
        },
        _ => {},
    }
}

/// Equality of JSON values goes both ways.
pub proof fn same_symmetric(a: JsonView, b: JsonView)
    ensures
        same(a, b) == same(b, a),
    decreases a,
{
    match (a, b) {
        (JsonView::Array(x), JsonView::Array(y)) => {
            if x.len() == y.len() {
                assert forall|i: int| 0 <= i < x.len() implies same(#[trigger] x[i], y[i]) == same(
                    y[i],
                    x[i],
                ) by {
                    same_symmetric(x[i], y[i]);
                }
                if same(a, b) {
                    assert forall|i: int| 0 <= i < y.len() implies same(#[trigger] y[i], x[i]) by {
                        assert(same(x[i], y[i]));
                    }
                }
                if same(b, a) {
                    assert forall|i: int| 0 <= i < x.len() implies same(#[trigger] x[i], y[i]) by {
                        assert(same(y[i], x[i]));
                    }
                }
            }
        },
        (JsonView::Object(x), JsonView::Object(y)) => {
            if x.len() == y.len() {
                assert forall|i: int| 0 <= i < x.len() implies same((#[trigger] x[i]).1, y[i].1)
                    == same(y[i].1, x[i].1) by {
                    assert(decreases_to!(x => x[i]));
                    assert(decreases_to!(x[i] => x[i].1));
                    same_symmetric(x[i].1, y[i].1);
                }
                if same(a, b) {
                    assert forall|i: int| 0 <= i < y.len() implies (#[trigger] y[i]).0 == x[i].0
                        && same(y[i].1, x[i].1) by {
                        assert(same(x[i].1, y[i].1));
                    }
                }
                if same(b, a) {
                    assert forall|i: int| 0 <= i < x.len() implies (#[trigger] x[i]).0 == y[i].0
                        && same(x[i].1, y[i].1) by {
                        assert(same(y[i].1, x[i].1));
                    }
                }
            }
        },
        _ => {},
    }
}

/// A state compared with itself shows no changes and no lineage mismatch.
pub proof fn no_changes_against_itself(state: StateView, c: ComparisonView)
    requires
        is_comparison(state, state, c),
    ensures
        !has_changes(c),
        c.lineage_matches,
{
    if c.outputs.len() > 0 {
        let name = row_names(c.outputs)[0];
        assert(row_names(c.outputs).contains(name));
        assert(output_differs(state.outputs.get(name), state.outputs.get(name)));
        same_reflexive(state.outputs[name].value);
    }
    if c.resources.len() > 0 {
        let at = row_addresses(c.resources)[0];
        assert(row_addresses(c.resources).contains(at));
        let o = instances_by_address(state.resources);
        assert(resource_differs(o.get(at), o.get(at)));
    }
}

/// The result of a comparison is determined by the two states.
pub proof fn comparison_unique(
    old: StateView,
    new: StateView,
    c1: ComparisonView,
    c2: ComparisonView,
)
    requires
        is_comparison(old, new, c1),
        is_comparison(old, new, c2),
    ensures
        c1 == c2,
{
    report_shows_no_secret(old, new, old, new, c1, c2);
}

} // verus!
