//! What a comparison shows of sensitive values.
use vstd::prelude::*;

use crate::diff::ComparisonView;
use crate::diff::attributes::AttrRow;
use crate::diff::attributes::attr_row;
use crate::diff::attributes::is_attr_diff;
use crate::diff::attributes::leaf_map;
use crate::diff::attributes::row_paths;
use crate::diff::is_comparison;
use crate::diff::outputs::OutputRow;
use crate::diff::outputs::is_output_diff;
use crate::diff::outputs::output_differs;
use crate::diff::outputs::output_row;
use crate::diff::outputs::output_text_if_any;
use crate::diff::outputs::row_names;
use crate::diff::resources::ResourceRow;
use crate::diff::resources::instances_by_address;
use crate::diff::resources::is_resource_diff;
use crate::diff::resources::is_resource_row;
use crate::diff::resources::resource_differs;
use crate::diff::resources::row_addresses;
use crate::json::same;
use crate::map::increasing_unique;
use crate::report::report_text;
use crate::sensitive::REDACTED;
use crate::sensitive::sensitive;
use crate::state::OutputView;
use crate::state::StateView;
use crate::value::JsonView;

verus! {

/// Whether two comparisons of attribute trees, of `o1` with `n1` and of `o2` with
/// `n2`, could only be told apart by values on sensitive paths: on any other path
/// the texts are the same, and on a sensitive path it is the same whether there is
/// a value on either side and whether the two sides agree.
pub open spec fn attrs_alike_but_for_secrets(
    o1: Map<Seq<char>, Seq<char>>,
    n1: Map<Seq<char>, Seq<char>>,
    o2: Map<Seq<char>, Seq<char>>,
    n2: Map<Seq<char>, Seq<char>>,
) -> bool {
    forall|p: Seq<char>|
        #![trigger o1.get(p)]
        #![trigger n1.get(p)]
        #![trigger o2.get(p)]
        #![trigger n2.get(p)]
        if sensitive(p) {
            &&& o1.get(p) is Some == o2.get(p) is Some
            &&& n1.get(p) is Some == n2.get(p) is Some
            &&& (o1.get(p) == n1.get(p)) == (o2.get(p) == n2.get(p))
        } else {
            &&& o1.get(p) == o2.get(p)
            &&& n1.get(p) == n2.get(p)
        }
}

/// Of values on sensitive paths an attribute difference shows nothing but whether
/// they are there and whether they changed.
pub proof fn attr_diff_shows_no_secret(
    o1: Map<Seq<char>, Seq<char>>,
    n1: Map<Seq<char>, Seq<char>>,
    o2: Map<Seq<char>, Seq<char>>,
    n2: Map<Seq<char>, Seq<char>>,
    a: Seq<AttrRow>,
    b: Seq<AttrRow>,
)
    requires
        attrs_alike_but_for_secrets(o1, n1, o2, n2),
        is_attr_diff(o1, n1, a),
        is_attr_diff(o2, n2, b),
    ensures
        a == b,
{
    let x = row_paths(a);
    let y = row_paths(b);
    assert forall|k: Seq<char>| #[trigger] x.contains(k) <==> y.contains(k) by {
        assert(o1.get(k) != n1.get(k) <==> o2.get(k) != n2.get(k));
    }
    increasing_unique(x, y);
    assert(a.len() == x.len() && b.len() == y.len());
    assert forall|i: int| 0 <= i < a.len() implies a[i] == b[i] by {
        assert(x[i] == a[i].path && y[i] == b[i].path);
        let p = a[i].path;
        assert(a[i] == attr_row(p, o1.get(p), n1.get(p)));
        assert(b[i] == attr_row(p, o2.get(p), n2.get(p)));
    }
    assert(a =~= b);
}

/// Whether an output looks the same on two occasions: it is missing on both, or it
/// is sensitive on both, or it is the same.
pub open spec fn output_looks_alike(a: Option<OutputView>, b: Option<OutputView>) -> bool {
    match (a, b) {
        (Some(x), Some(y)) => x.sensitive == y.sensitive && (x.sensitive || x == y),
        (None, None) => true,
        _ => false,
    }
}

/// Whether two comparisons of outputs could only be told apart by the values of
/// sensitive outputs.
pub open spec fn outputs_alike_but_for_secrets(
    o1: Map<Seq<char>, OutputView>,
    n1: Map<Seq<char>, OutputView>,
    o2: Map<Seq<char>, OutputView>,
    n2: Map<Seq<char>, OutputView>,
) -> bool {
    forall|k: Seq<char>|
        #![trigger o1.get(k)]
        #![trigger n1.get(k)]
        #![trigger o2.get(k)]
        #![trigger n2.get(k)]
        {
            &&& output_looks_alike(o1.get(k), o2.get(k))
            &&& output_looks_alike(n1.get(k), n2.get(k))
            &&& output_differs(o1.get(k), n1.get(k)) == output_differs(o2.get(k), n2.get(k))
        }
}

/// Of sensitive outputs an output difference shows nothing but whether they are
/// there and whether they changed.
pub proof fn output_diff_shows_no_secret(
    o1: Map<Seq<char>, OutputView>,
    n1: Map<Seq<char>, OutputView>,
    o2: Map<Seq<char>, OutputView>,
    n2: Map<Seq<char>, OutputView>,
    a: Seq<OutputRow>,
    b: Seq<OutputRow>,
)
    requires
        outputs_alike_but_for_secrets(o1, n1, o2, n2),
        is_output_diff(o1, n1, a),
        is_output_diff(o2, n2, b),
    ensures
        a == b,
{
    let x = row_names(a);
    let y = row_names(b);
    assert forall|k: Seq<char>| #[trigger] x.contains(k) <==> y.contains(k) by {
        assert(output_differs(o1.get(k), n1.get(k)) == output_differs(o2.get(k), n2.get(k)));
    }
    increasing_unique(x, y);
    assert(a.len() == x.len() && b.len() == y.len());
    assert forall|i: int| 0 <= i < a.len() implies a[i] == b[i] by {
        assert(x[i] == a[i].name && y[i] == b[i].name);
        let k = a[i].name;
        assert(a[i] == output_row(k, o1.get(k), n1.get(k)));
        assert(b[i] == output_row(k, o2.get(k), n2.get(k)));
        assert(output_text_if_any(o1.get(k)) == output_text_if_any(o2.get(k)));
        assert(output_text_if_any(n1.get(k)) == output_text_if_any(n2.get(k)));
    }
    assert(a =~= b);
}

/// Whether two comparisons of instances could only be told apart by values on
/// sensitive paths: the same addresses are there on either side, and where one is
/// there on both sides, its attributes are alike but for secrets.
pub open spec fn resources_alike_but_for_secrets(
    o1: Map<Seq<char>, JsonView>,
    n1: Map<Seq<char>, JsonView>,
    o2: Map<Seq<char>, JsonView>,
    n2: Map<Seq<char>, JsonView>,
) -> bool {
    forall|k: Seq<char>|
        #![trigger o1.get(k)]
        #![trigger n1.get(k)]
        #![trigger o2.get(k)]
        #![trigger n2.get(k)]
        {
            &&& o1.get(k) is Some == o2.get(k) is Some
            &&& n1.get(k) is Some == n2.get(k) is Some
            &&& o1.get(k) is Some && n1.get(k) is Some ==> attrs_alike_but_for_secrets(
                leaf_map(o1.get(k)->0),
                leaf_map(n1.get(k)->0),
                leaf_map(o2.get(k)->0),
                leaf_map(n2.get(k)->0),
            )
        }
}

/// Flat attribute trees that are alike but for secrets agree on whether there is a
/// difference at all.
proof fn alike_differ_alike(
    o1: Map<Seq<char>, Seq<char>>,
    n1: Map<Seq<char>, Seq<char>>,
    o2: Map<Seq<char>, Seq<char>>,
    n2: Map<Seq<char>, Seq<char>>,
)
    requires
        attrs_alike_but_for_secrets(o1, n1, o2, n2),
        o1 == n1,
    ensures
        o2 == n2,
{
    assert forall|p: Seq<char>| #[trigger] o2.get(p) == n2.get(p) by {
        assert(o1.get(p) == n1.get(p));
    }
    assert forall|p: Seq<char>| #[trigger] o2.contains_key(p) == n2.contains_key(p) by {
        assert(o2.get(p) == n2.get(p));
    }
    assert forall|p: Seq<char>| o2.contains_key(p) implies #[trigger] o2[p] == n2[p] by {
        assert(o2.get(p) == n2.get(p));
    }
    assert(o2 =~= n2);
}

/// Of values on sensitive paths a resource difference shows nothing but whether
/// they are there and whether they changed.
pub proof fn resource_diff_shows_no_secret(
    o1: Map<Seq<char>, JsonView>,
    n1: Map<Seq<char>, JsonView>,
    o2: Map<Seq<char>, JsonView>,
    n2: Map<Seq<char>, JsonView>,
    a: Seq<ResourceRow>,
    b: Seq<ResourceRow>,
)
    requires
        resources_alike_but_for_secrets(o1, n1, o2, n2),
        is_resource_diff(o1, n1, a),
        is_resource_diff(o2, n2, b),
    ensures
        a == b,
{
    let x = row_addresses(a);
    let y = row_addresses(b);
    assert forall|k: Seq<char>| #[trigger] x.contains(k) <==> y.contains(k) by {
        assert(resource_differs(o1.get(k), n1.get(k)) == resource_differs(o2.get(k), n2.get(k)))
            by {
            if o1.get(k) is Some && n1.get(k) is Some {
                let lo1 = leaf_map(o1.get(k)->0);
                let ln1 = leaf_map(n1.get(k)->0);
                let lo2 = leaf_map(o2.get(k)->0);
                let ln2 = leaf_map(n2.get(k)->0);
                assert(attrs_alike_but_for_secrets(lo2, ln2, lo1, ln1));
                if lo1 == ln1 {
                    alike_differ_alike(lo1, ln1, lo2, ln2);
                }
                if lo2 == ln2 {
                    alike_differ_alike(lo2, ln2, lo1, ln1);
                }
            }
        }
    }
    increasing_unique(x, y);
    assert(a.len() == x.len() && b.len() == y.len());
    assert forall|i: int| 0 <= i < a.len() implies a[i] == b[i] by {
        assert(x[i] == a[i].address && y[i] == b[i].address);
        let k = a[i].address;
        assert(is_resource_row(o1.get(k), n1.get(k), a[i]));
        assert(is_resource_row(o2.get(k), n2.get(k), b[i]));
        if o1.get(k) is Some && n1.get(k) is Some {
            attr_diff_shows_no_secret(
                leaf_map(o1.get(k)->0),
                leaf_map(n1.get(k)->0),
                leaf_map(o2.get(k)->0),
                leaf_map(n2.get(k)->0),
                a[i].changes,
                b[i].changes,
            );
        } else {
            assert(a[i].changes =~= b[i].changes);
        }
    }
    assert(a =~= b);
}

/// Whether two comparisons of states could only be told apart by values on
/// sensitive paths and by the values of sensitive outputs.
pub open spec fn states_alike_but_for_secrets(
    old1: StateView,
    new1: StateView,
    old2: StateView,
    new2: StateView,
) -> bool {
    &&& old1.serial == old2.serial
    &&& new1.serial == new2.serial
    &&& old1.lineage == old2.lineage
    &&& new1.lineage == new2.lineage
    &&& resources_alike_but_for_secrets(
        instances_by_address(old1.resources),
        instances_by_address(new1.resources),
        instances_by_address(old2.resources),
        instances_by_address(new2.resources),
    )
    &&& outputs_alike_but_for_secrets(old1.outputs, new1.outputs, old2.outputs, new2.outputs)
}

/// Sensitive values are never shown: two comparisons that could only be told apart
/// by values on sensitive paths and by the values of sensitive outputs have the same
/// result and the same report.
pub proof fn report_shows_no_secret(
    old1: StateView,
    new1: StateView,
    old2: StateView,
    new2: StateView,
    c1: ComparisonView,
    c2: ComparisonView,
)
    requires
        states_alike_but_for_secrets(old1, new1, old2, new2),
        is_comparison(old1, new1, c1),
        is_comparison(old2, new2, c2),
    ensures
        c1 == c2,
        report_text(c1) == report_text(c2),
{
    resource_diff_shows_no_secret(
        instances_by_address(old1.resources),
        instances_by_address(new1.resources),
        instances_by_address(old2.resources),
        instances_by_address(new2.resources),
        c1.resources,
        c2.resources,
    );
    output_diff_shows_no_secret(
        old1.outputs,
        new1.outputs,
        old2.outputs,
        new2.outputs,
        c1.outputs,
        c2.outputs,
    );
}

/// A row on a sensitive path shows the marker on each side that is there, and the
/// row is there whenever the two sides differ.
pub proof fn changed_secret_is_reported_as_marker(
    old: Map<Seq<char>, Seq<char>>,
    new: Map<Seq<char>, Seq<char>>,
    rows: Seq<AttrRow>,
    path: Seq<char>,
)
    requires
        is_attr_diff(old, new, rows),
        sensitive(path),
        old.get(path) != new.get(path),
    ensures
        rows.contains(
            AttrRow {
                path,
                old: if old.contains_key(path) {
                    Some(REDACTED@)
                } else {
                    None
                },
                new: if new.contains_key(path) {
                    Some(REDACTED@)
                } else {
                    None
                },
            },
        ),
{
    assert(row_paths(rows).contains(path));
    let i = choose|i: int| 0 <= i < rows.len() && row_paths(rows)[i] == path;
    assert(rows[i] == attr_row(path, old.get(path), new.get(path)));
}

/// A sensitive output whose value changed is reported, with the marker on both
/// sides.
pub proof fn changed_sensitive_output_is_reported_as_marker(
    old: Map<Seq<char>, OutputView>,
    new: Map<Seq<char>, OutputView>,
    rows: Seq<OutputRow>,
    name: Seq<char>,
)
    requires
        is_output_diff(old, new, rows),
        old.contains_key(name),
        new.contains_key(name),
        old[name].sensitive,
        new[name].sensitive,
        !same(old[name].value, new[name].value),
    ensures
        rows.contains(OutputRow { name, old: Some(REDACTED@), new: Some(REDACTED@) }),
{
    assert(output_differs(old.get(name), new.get(name)));
    assert(row_names(rows).contains(name));
    let i = choose|i: int| 0 <= i < rows.len() && row_names(rows)[i] == name;
    assert(rows[i] == output_row(name, old.get(name), new.get(name)));
}

} // verus!
