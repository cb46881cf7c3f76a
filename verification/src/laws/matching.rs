//! How the instances of two states are matched.
use vstd::prelude::*;
use vstd::seq_lib::to_multiset_contains;

use crate::diff::ComparisonView;
use crate::diff::attributes::leaf_map;
use crate::diff::is_comparison;
use crate::diff::resources::ResourceRow;
use crate::diff::resources::addressed;
use crate::diff::resources::all_addressed;
use crate::diff::resources::instances_by_address;
use crate::diff::resources::is_resource_diff;
use crate::diff::resources::is_resource_row;
use crate::diff::resources::resource_differs;
use crate::diff::resources::row_addresses;
use crate::map::overlay;
use crate::map::overlay_concat;
use crate::state::InstanceView;
use crate::state::ResourceView;
use crate::state::StateView;
use crate::state::address;
use crate::value::JsonView;

verus! {

/// Whether two sets of instances have the same addresses, with the same attributes
/// under each, leaf by leaf.
pub open spec fn same_by_address(
    a: Map<Seq<char>, JsonView>,
    b: Map<Seq<char>, JsonView>,
) -> bool {
    forall|at: Seq<char>|
        #![trigger a.get(at)]
        #![trigger b.get(at)]
        match (a.get(at), b.get(at)) {
            (Some(x), Some(y)) => leaf_map(x) == leaf_map(y),
            (None, None) => true,
            _ => false,
        }
}

/// Instances are matched by their addresses and by nothing else: where two pairs of
/// states have the same instances under the same addresses, they have the same
/// resource difference.
pub proof fn matching_goes_by_address(
    o1: Map<Seq<char>, JsonView>,
    n1: Map<Seq<char>, JsonView>,
    o2: Map<Seq<char>, JsonView>,
    n2: Map<Seq<char>, JsonView>,
    rows: Seq<ResourceRow>,
)
    requires
        same_by_address(o1, o2),
        same_by_address(n1, n2),
        is_resource_diff(o1, n1, rows),
    ensures
        is_resource_diff(o2, n2, rows),
{
    assert forall|at: Seq<char>| #[trigger]
        row_addresses(rows).contains(at) <==> resource_differs(o2.get(at), n2.get(at)) by {
        assert(resource_differs(o1.get(at), n1.get(at)) == resource_differs(
            o2.get(at),
            n2.get(at),
        ));
    }
    assert forall|i: int| 0 <= i < rows.len() implies {
        let at = (#[trigger] rows[i]).address;
        is_resource_row(o2.get(at), n2.get(at), rows[i])
    } by {
        let at = rows[i].address;
        assert(is_resource_row(o1.get(at), n1.get(at), rows[i]));
    }
}

/// The attributes of the instance at each address of one resource.
pub open spec fn own_instances(resource: ResourceView) -> Map<Seq<char>, JsonView> {
    overlay(Map::empty(), addressed(resource, resource.instances))
}

/// Whether two resources say the same of every address that both of them have. Most
/// often they have none in common.
pub open spec fn agree(a: ResourceView, b: ResourceView) -> bool {
    forall|at: Seq<char>|
        #![trigger own_instances(a).contains_key(at), own_instances(b).contains_key(at)]
        own_instances(a).contains_key(at) && own_instances(b).contains_key(at) ==> leaf_map(
            own_instances(a)[at],
        ) == leaf_map(own_instances(b)[at])
}

/// Whether any two resources of a list agree.
pub open spec fn consistent(resources: Seq<ResourceView>) -> bool {
    forall|i: int, j: int|
        0 <= i < j < resources.len() ==> agree(#[trigger] resources[i], #[trigger] resources[j])
}

/// Entering a listing changes nothing but the keys of the listing.
pub(crate) proof fn overlay_over<V>(m: Map<Seq<char>, V>, s: Seq<(Seq<char>, V)>, k: Seq<char>)
    ensures
        overlay(m, s).get(k) == if overlay(Map::empty(), s).contains_key(k) {
            Some(overlay(Map::empty(), s)[k])
        } else {
            m.get(k)
        },
    decreases s.len(),
{
    if s.len() > 0 {
        overlay_over(m, s.drop_last(), k);
    }
}

/// The instance at an address is that of a resource that has the address.
proof fn instance_is_of_a_resource(resources: Seq<ResourceView>, at: Seq<char>)
    ensures
        match instances_by_address(resources).get(at) {
            Some(v) => exists|i: int|
                #![trigger resources[i]]
                0 <= i < resources.len() && own_instances(resources[i]).get(at) == Some(v),
            None => forall|i: int|
                0 <= i < resources.len() ==> own_instances(#[trigger] resources[i]).get(at)
                    is None,
        },
    decreases resources.len(),
{
    if resources.len() > 0 {
        let front = resources.drop_last();
        let last = resources.last();
        instance_is_of_a_resource(front, at);
        overlay_concat(Map::empty(), all_addressed(front), addressed(last, last.instances));
        overlay_over(instances_by_address(front), addressed(last, last.instances), at);
        if own_instances(last).contains_key(at) {
            assert(own_instances(resources[resources.len() - 1]).get(at)
                == instances_by_address(resources).get(at));
        } else if instances_by_address(front).get(at) is Some {
            let v = instances_by_address(front).get(at)->0;
            let i = choose|i: int|
                #![trigger front[i]]
                0 <= i < front.len() && own_instances(front[i]).get(at) == Some(v);
            assert(own_instances(resources[i]).get(at) == Some(v));
        } else {
            assert forall|i: int| 0 <= i < resources.len() implies own_instances(
                #[trigger] resources[i],
            ).get(at) is None by {
                if i < front.len() {
                    assert(own_instances(front[i]).get(at) is None);
                }
            }
        }
    }
}

/// The order of resources that agree does not matter to which instances there are.
pub proof fn instances_of_reordered_resources(a: Seq<ResourceView>, b: Seq<ResourceView>)
    requires
        a.to_multiset() == b.to_multiset(),
        consistent(a),
    ensures
        same_by_address(instances_by_address(a), instances_by_address(b)),
{
    let x = instances_by_address(a);
    let y = instances_by_address(b);
    assert forall|at: Seq<char>|
        #![trigger x.get(at)]
        #![trigger y.get(at)]
        match (x.get(at), y.get(at)) {
            (Some(v), Some(w)) => leaf_map(v) == leaf_map(w),
            (None, None) => true,
            _ => false,
        } by {
        instance_is_of_a_resource(a, at);
        instance_is_of_a_resource(b, at);
        if x.get(at) is Some {
            let v = x.get(at)->0;
            let i = choose|i: int|
                #![trigger a[i]]
                0 <= i < a.len() && own_instances(a[i]).get(at) == Some(v);
            assert(a.contains(a[i]));
            to_multiset_contains(a, a[i]);
            to_multiset_contains(b, a[i]);
            let k = choose|k: int| 0 <= k < b.len() && b[k] == a[i];
            assert(own_instances(b[k]).get(at) is Some);
        }
        if y.get(at) is Some {
            let w = y.get(at)->0;
            let j = choose|j: int|
                #![trigger b[j]]
                0 <= j < b.len() && own_instances(b[j]).get(at) == Some(w);
            assert(b.contains(b[j]));
            to_multiset_contains(a, b[j]);
            to_multiset_contains(b, b[j]);
            let k = choose|k: int| 0 <= k < a.len() && a[k] == b[j];
            assert(own_instances(a[k]).get(at) == Some(w));
            let v = x.get(at)->0;
            let i = choose|i: int|
                #![trigger a[i]]
                0 <= i < a.len() && own_instances(a[i]).get(at) == Some(v);
            if i < k {
                assert(agree(a[i], a[k]));
            } else if k < i {
                assert(agree(a[k], a[i]));
            }
        }
    }
}

/// The order of resources plays no part: states that list the same resources in another
/// order have the same comparison. The exception is a state in which two resources
/// contradict each other on an address that both have, since there the last one counts.
pub proof fn resource_order_plays_no_part(
    old1: StateView,
    new1: StateView,
    old2: StateView,
    new2: StateView,
    c: ComparisonView,
)
    requires
        old1.serial == old2.serial,
        old1.lineage == old2.lineage,
        old1.outputs == old2.outputs,
        old1.resources.to_multiset() == old2.resources.to_multiset(),
        consistent(old1.resources),
        new1.serial == new2.serial,
        new1.lineage == new2.lineage,
        new1.outputs == new2.outputs,
        new1.resources.to_multiset() == new2.resources.to_multiset(),
        consistent(new1.resources),
        is_comparison(old1, new1, c),
    ensures
        is_comparison(old2, new2, c),
{
    instances_of_reordered_resources(old1.resources, old2.resources);
    instances_of_reordered_resources(new1.resources, new2.resources);
    matching_goes_by_address(
        instances_by_address(old1.resources),
        instances_by_address(new1.resources),
        instances_by_address(old2.resources),
        instances_by_address(new2.resources),
        c.resources,
    );
}

/// Whether two resources are the same but for the order of their instances.
pub open spec fn same_but_for_instance_order(a: ResourceView, b: ResourceView) -> bool {
    &&& a.module == b.module
    &&& a.mode == b.mode
    &&& a.resource_type == b.resource_type
    &&& a.name == b.name
    &&& a.instances.to_multiset() == b.instances.to_multiset()
}

/// Whether any two instances of a resource that share an address have the same
/// attributes, leaf by leaf. Most often no two share one.
pub open spec fn consistent_instances(resource: ResourceView) -> bool {
    forall|i: int, j: int|
        #![trigger resource.instances[i], resource.instances[j]]
        0 <= i < j < resource.instances.len() && address(
            resource,
            resource.instances[i].index_key,
        ) == address(resource, resource.instances[j].index_key) ==> leaf_map(
            resource.instances[i].attributes,
        ) == leaf_map(resource.instances[j].attributes)
}

/// What a resource has at an address is what one of its instances has there.
proof fn own_instance_is_of_an_instance(
    resource: ResourceView,
    instances: Seq<InstanceView>,
    at: Seq<char>,
)
    ensures
        match overlay(Map::empty(), addressed(resource, instances)).get(at) {
            Some(v) => exists|i: int|
                #![trigger instances[i]]
                0 <= i < instances.len() && address(resource, instances[i].index_key) == at
                    && instances[i].attributes == v,
            None => forall|i: int|
                0 <= i < instances.len() ==> address(
                    resource,
                    (#[trigger] instances[i]).index_key,
                ) != at,
        },
    decreases instances.len(),
{
    let s = addressed(resource, instances);
    if instances.len() > 0 {
        let front = instances.drop_last();
        let last = instances.last();
        own_instance_is_of_an_instance(resource, front, at);
        assert(s.drop_last() =~= addressed(resource, front));
        assert(s.last() == (address(resource, last.index_key), last.attributes));
        if address(resource, last.index_key) == at {
            assert(instances[instances.len() - 1].attributes == last.attributes);
        } else if overlay(Map::empty(), s).get(at) is Some {
            let v = overlay(Map::empty(), s).get(at)->0;
            let i = choose|i: int|
                #![trigger front[i]]
                0 <= i < front.len() && address(resource, front[i].index_key) == at
                    && front[i].attributes == v;
            assert(instances[i] == front[i]);
        } else {
            assert forall|i: int| 0 <= i < instances.len() implies address(
                resource,
                (#[trigger] instances[i]).index_key,
            ) != at by {
                if i < front.len() {
                    assert(instances[i] == front[i]);
                }
            }
        }
    }
}

/// The order of the instances of a resource does not matter to what it has at which
/// address.
proof fn reordered_instances(a: ResourceView, b: ResourceView)
    requires
        same_but_for_instance_order(a, b),
        consistent_instances(a),
    ensures
        same_by_address(own_instances(a), own_instances(b)),
{
    let x = own_instances(a);
    let y = own_instances(b);
    assert forall|at: Seq<char>|
        #![trigger x.get(at)]
        #![trigger y.get(at)]
        match (x.get(at), y.get(at)) {
            (Some(v), Some(w)) => leaf_map(v) == leaf_map(w),
            (None, None) => true,
            _ => false,
        } by {
        own_instance_is_of_an_instance(a, a.instances, at);
        own_instance_is_of_an_instance(b, b.instances, at);
        if x.get(at) is Some {
            let v = x.get(at)->0;
            let i = choose|i: int|
                #![trigger a.instances[i]]
                0 <= i < a.instances.len() && address(a, a.instances[i].index_key) == at
                    && a.instances[i].attributes == v;
            assert(a.instances.contains(a.instances[i]));
            to_multiset_contains(a.instances, a.instances[i]);
            to_multiset_contains(b.instances, a.instances[i]);
            let k = choose|k: int| 0 <= k < b.instances.len() && b.instances[k] == a.instances[i];
            assert(address(b, b.instances[k].index_key) == at);
        }
        if y.get(at) is Some {
            let w = y.get(at)->0;
            let j = choose|j: int|
                #![trigger b.instances[j]]
                0 <= j < b.instances.len() && address(b, b.instances[j].index_key) == at
                    && b.instances[j].attributes == w;
            assert(b.instances.contains(b.instances[j]));
            to_multiset_contains(a.instances, b.instances[j]);
            to_multiset_contains(b.instances, b.instances[j]);
            let k = choose|k: int| 0 <= k < a.instances.len() && a.instances[k] == b.instances[j];
            assert(address(a, a.instances[k].index_key) == at);
            let v = x.get(at)->0;
            let i = choose|i: int|
                #![trigger a.instances[i]]
                0 <= i < a.instances.len() && address(a, a.instances[i].index_key) == at
                    && a.instances[i].attributes == v;
            assert(leaf_map(a.instances[i].attributes) == leaf_map(a.instances[k].attributes));
        }
    }
}

/// Resources that have the same at each address, one by one, have the same together.
proof fn same_one_by_one(a: Seq<ResourceView>, b: Seq<ResourceView>)
    requires
        a.len() == b.len(),
        forall|i: int|
            0 <= i < a.len() ==> same_by_address(
                own_instances(#[trigger] a[i]),
                own_instances(b[i]),
            ),
    ensures
        same_by_address(instances_by_address(a), instances_by_address(b)),
    decreases a.len(),
{
    if a.len() > 0 {
        let (x, y) = (a.drop_last(), b.drop_last());
        let (p, q) = (a.last(), b.last());
        same_one_by_one(x, y);
        overlay_concat(Map::empty(), all_addressed(x), addressed(p, p.instances));
        overlay_concat(Map::empty(), all_addressed(y), addressed(q, q.instances));
        let (m, n) = (instances_by_address(a), instances_by_address(b));
        assert(same_by_address(own_instances(a[a.len() - 1]), own_instances(b[a.len() - 1])));
        assert forall|at: Seq<char>|
            #![trigger m.get(at)]
            #![trigger n.get(at)]
            match (m.get(at), n.get(at)) {
                (Some(v), Some(w)) => leaf_map(v) == leaf_map(w),
                (None, None) => true,
                _ => false,
            } by {
            overlay_over(instances_by_address(x), addressed(p, p.instances), at);
            overlay_over(instances_by_address(y), addressed(q, q.instances), at);
            assert(own_instances(p).get(at) is Some == own_instances(q).get(at) is Some);
            assert(instances_by_address(x).get(at) is Some == instances_by_address(y).get(at)
                is Some);
        }
    }
}

/// Whether two lists of resources are the same but for the order of the instances in
/// each resource, and no two instances of a resource contradict each other on an address.
pub open spec fn instances_reordered(a: Seq<ResourceView>, b: Seq<ResourceView>) -> bool {
    &&& a.len() == b.len()
    &&& forall|i: int|
        0 <= i < a.len() ==> same_but_for_instance_order(#[trigger] a[i], b[i])
            && consistent_instances(a[i])
}

/// The order of the instances of a resource plays no part: states that list the same
/// instances of each resource in another order have the same comparison. The exception is
/// a resource with two instances that contradict each other on an address, since there
/// the last one counts.
pub proof fn instance_order_plays_no_part(
    old1: StateView,
    new1: StateView,
    old2: StateView,
    new2: StateView,
    c: ComparisonView,
)
    requires
        old1.serial == old2.serial,
        old1.lineage == old2.lineage,
        old1.outputs == old2.outputs,
        instances_reordered(old1.resources, old2.resources),
        new1.serial == new2.serial,
        new1.lineage == new2.lineage,
        new1.outputs == new2.outputs,
        instances_reordered(new1.resources, new2.resources),
        is_comparison(old1, new1, c),
    ensures
        is_comparison(old2, new2, c),
{
    assert forall|i: int| 0 <= i < old1.resources.len() implies same_by_address(
        own_instances(#[trigger] old1.resources[i]),
        own_instances(old2.resources[i]),
    ) by {
        reordered_instances(old1.resources[i], old2.resources[i]);
    }
    assert forall|i: int| 0 <= i < new1.resources.len() implies same_by_address(
        own_instances(#[trigger] new1.resources[i]),
        own_instances(new2.resources[i]),
    ) by {
        reordered_instances(new1.resources[i], new2.resources[i]);
    }
    same_one_by_one(old1.resources, old2.resources);
    same_one_by_one(new1.resources, new2.resources);
    matching_goes_by_address(
        instances_by_address(old1.resources),
        instances_by_address(new1.resources),
        instances_by_address(old2.resources),
        instances_by_address(new2.resources),
        c.resources,
    );
}

} // verus!
