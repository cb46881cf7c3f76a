//! Which resource instances came, went or changed.
use vstd::prelude::*;

use crate::diff::attributes::AttrChange;
use crate::diff::attributes::AttrRow;
use crate::diff::attributes::attr_rows;
use crate::diff::attributes::diff_attributes;
use crate::diff::attributes::is_attr_diff;
use crate::diff::attributes::leaf_map;
use crate::diff::attributes::no_attr_rows;
use crate::map::SortedMap;
use crate::map::all_keys;
use crate::map::increasing;
use crate::map::key_views;
use crate::map::overlay;
use crate::map::overlay_concat;
use crate::map::overlay_mapped;
use crate::state::InstanceState;
use crate::state::InstanceView;
use crate::state::ResourceState;
use crate::state::ResourceView;
use crate::state::address;
use crate::state::resource_address;
use crate::state::resource_views;
use crate::text::precedes;
use crate::value::JsonView;

verus! {

/// How a resource instance differs between two states.
#[derive(Debug, Clone, PartialEq, Eq)]
pub enum ResourceChangeKind {
    Created,
    Destroyed,
    Changed,
}

/// A resource instance that differs, with the attributes that changed.
#[derive(Debug, Clone)]
pub struct ResourceDiff {
    pub address: String,
    pub kind: ResourceChangeKind,
    pub attr_changes: Vec<AttrChange>,
}

/// What a [`ResourceDiff`] says.
pub struct ResourceRow {
    pub address: Seq<char>,
    pub kind: ResourceChangeKind,
    pub changes: Seq<AttrRow>,
}

impl View for ResourceDiff {
    type V = ResourceRow;

    open spec fn view(&self) -> ResourceRow {
        ResourceRow {
            address: self.address@,
            kind: self.kind,
            changes: attr_rows(self.attr_changes@),
        }
    }
}

/// What a list of differing resources says.
pub open spec fn resource_rows(diffs: Seq<ResourceDiff>) -> Seq<ResourceRow> {
    diffs.map_values(|d: ResourceDiff| d@)
}

/// The addresses of the rows of a resource difference, in order.
pub open spec fn row_addresses(rows: Seq<ResourceRow>) -> Seq<Seq<char>> {
    rows.map_values(|r: ResourceRow| r.address)
}

/// The address and the attributes of each of some instances of a resource.
pub open spec fn addressed(resource: ResourceView, instances: Seq<InstanceView>) -> Seq<
    (Seq<char>, JsonView),
> {
    instances.map_values(|i: InstanceView| (address(resource, i.index_key), i.attributes))
}

/// The address and the attributes of each instance of each resource.
pub open spec fn all_addressed(resources: Seq<ResourceView>) -> Seq<(Seq<char>, JsonView)>
    decreases resources.len(),
{
    if resources.len() == 0 {
        seq![]
    } else {
        all_addressed(resources.drop_last()) + addressed(
            resources.last(),
            resources.last().instances,
        )
    }
}

/// The attributes of the instance at each address. Where several instances share
/// an address, the last one counts.
pub open spec fn instances_by_address(resources: Seq<ResourceView>) -> Map<Seq<char>, JsonView> {
    overlay(Map::empty(), all_addressed(resources))
}

/// Whether the instance at an address differs: it is on one side only, or its
/// attributes have different leaves.
pub open spec fn resource_differs(old: Option<JsonView>, new: Option<JsonView>) -> bool {
    match (old, new) {
        (Some(o), Some(n)) => leaf_map(o) != leaf_map(n),
        (None, None) => false,
        _ => true,
    }
}

/// Whether a row says how the instance at its address differs.
pub open spec fn is_resource_row(
    old: Option<JsonView>,
    new: Option<JsonView>,
    row: ResourceRow,
) -> bool {
    match (old, new) {
        (None, Some(_)) => row.kind == ResourceChangeKind::Created && row.changes.len() == 0,
        (Some(_), None) => row.kind == ResourceChangeKind::Destroyed && row.changes.len() == 0,
        (Some(o), Some(n)) => {
            &&& row.kind == ResourceChangeKind::Changed
            &&& is_attr_diff(leaf_map(o), leaf_map(n), row.changes)
        },
        (None, None) => false,
    }
}

/// Whether rows are the difference of two sets of instances: a row for each address
/// whose instances differ and for no other, in ascending order of the addresses,
/// saying whether the instance was created, destroyed or changed, and in the last
/// case how its attributes changed.
pub open spec fn is_resource_diff(
    old: Map<Seq<char>, JsonView>,
    new: Map<Seq<char>, JsonView>,
    rows: Seq<ResourceRow>,
) -> bool {
    &&& increasing(row_addresses(rows))
    &&& forall|at: Seq<char>| #[trigger]
        row_addresses(rows).contains(at) <==> resource_differs(old.get(at), new.get(at))
    &&& forall|i: int|
        0 <= i < rows.len() ==> {
            let at = (#[trigger] rows[i]).address;
            is_resource_row(old.get(at), new.get(at), rows[i])
        }
}

/// Each instance of a resource under its address.
pub open spec fn listed(resource: ResourceState) -> Seq<(Seq<char>, InstanceState)> {
    resource.instances@.map_values(|i: InstanceState| (address(resource@, i@.index_key), i))
}

/// Each instance of each resource under its address.
pub open spec fn all_listed(resources: Seq<ResourceState>) -> Seq<(Seq<char>, InstanceState)>
    decreases resources.len(),
{
    if resources.len() == 0 {
        seq![]
    } else {
        all_listed(resources.drop_last()) + listed(resources.last())
    }
}

/// The instance that an index has at each address.
pub open spec fn found(index: SortedMap<&InstanceState>) -> Map<Seq<char>, InstanceState> {
    index@.map_values(|i: &InstanceState| *i)
}

/// The attributes of the instance that an index has at each address.
pub open spec fn indexed(index: SortedMap<&InstanceState>) -> Map<Seq<char>, JsonView> {
    found(index).map_values(|i: InstanceState| i.attributes@)
}

/// The attributes of listed instances are those that a comparison reads.
proof fn listed_attributes(resources: Seq<ResourceState>)
    ensures
        all_listed(resources).map_values(
            |p: (Seq<char>, InstanceState)| (p.0, p.1.attributes@),
        ) == all_addressed(resource_views(resources)),
    decreases resources.len(),
{
    let views = resource_views(resources);
    let read = |p: (Seq<char>, InstanceState)| (p.0, p.1.attributes@);
    if resources.len() > 0 {
        let last = resources.last();
        listed_attributes(resources.drop_last());
        assert(views.drop_last() =~= resource_views(resources.drop_last()));
        assert(views.last() == last@);
        assert(listed(last).map_values(read) =~= addressed(last@, last@.instances));
    }
    assert(all_listed(resources).map_values(read) =~= all_addressed(views));
}

/// Enters the instances of a resource under their addresses.
fn index_resource<'a>(resource: &'a ResourceState, index: &mut SortedMap<&'a InstanceState>)
    ensures
        found(*final(index)) == overlay(found(*old(index)), listed(*resource)),
{
    let ghost pairs = listed(*resource);
    let mut i: usize = 0;
    assert(pairs.take(0) =~= seq![]);
    while i < resource.instances.len()
        invariant
            i <= resource.instances@.len(),
            pairs == listed(*resource),
            found(*index) == overlay(found(*old(index)), pairs.take(i as int)),
        decreases resource.instances@.len() - i,
    {
        let ghost had = found(*index);
        let instance = &resource.instances[i];
        let addr = resource_address(resource, instance.index_key.as_ref());
        assert(pairs[i as int] == (addr@, *instance));
        index.insert(addr, instance);
        assert(found(*index) =~= had.insert(pairs[i as int].0, pairs[i as int].1));
        assert(pairs.take(i + 1).drop_last() =~= pairs.take(i as int));
        i = i + 1;
    }
    assert(pairs.take(resource.instances@.len() as int) =~= pairs);
}

/// The instances of some resources by their addresses. Where several instances share
/// an address, the last one is found there.
fn index_instances(resources: &[ResourceState]) -> (index: SortedMap<&InstanceState>)
    ensures
        found(index) == overlay(Map::empty(), all_listed(resources@)),
        indexed(index) == instances_by_address(resource_views(resources@)),
{
    let mut index: SortedMap<&InstanceState> = SortedMap::new();
    assert(found(index) =~= Map::empty());
    assert(resources@.take(0) =~= seq![]);
    let mut i: usize = 0;
    while i < resources.len()
        invariant
            i <= resources@.len(),
            found(index) == overlay(Map::empty(), all_listed(resources@.take(i as int))),
        decreases resources@.len() - i,
    {
        let resource = &resources[i];
        proof {
            assert(resources@.take(i + 1).drop_last() =~= resources@.take(i as int));
            overlay_concat(
                Map::empty(),
                all_listed(resources@.take(i as int)),
                listed(*resource),
            );
        }
        index_resource(resource, &mut index);
        i = i + 1;
    }
    proof {
        let read = |i: InstanceState| i.attributes@;
        let pairs = all_listed(resources@);
        assert(resources@.take(resources@.len() as int) =~= resources@);
        overlay_mapped(Map::empty(), pairs, read);
        listed_attributes(resources@);
        assert(pairs.map_values(|p: (Seq<char>, InstanceState)| (p.0, read(p.1)))
            =~= all_addressed(resource_views(resources@)));
        assert(Map::<Seq<char>, InstanceState>::empty().map_values(read) =~= Map::empty());
    }
    index
}

/// Finds the resource instances that came, went or changed, by their addresses.
pub fn diff_resources(old: &[ResourceState], new: &[ResourceState]) -> (diffs: Vec<ResourceDiff>)
    ensures
        is_resource_diff(
            instances_by_address(resource_views(old@)),
            instances_by_address(resource_views(new@)),
            resource_rows(diffs@),
        ),
{
    let old_index = index_instances(old);
    let new_index = index_instances(new);
    let ghost o = indexed(old_index);
    let ghost n = indexed(new_index);
    let addrs = all_keys(&old_index, &new_index);
    let ghost keys = key_views(addrs@);
    let mut diffs: Vec<ResourceDiff> = Vec::new();
    let mut i: usize = 0;
    while i < addrs.len()
        invariant
            i <= addrs@.len(),
            keys == key_views(addrs@),
            increasing(keys),
            indexed(old_index) == o,
            indexed(new_index) == n,
            forall|k: Seq<char>| #[trigger]
                keys.contains(k) <==> old_index@.contains_key(k) || new_index@.contains_key(k),
            forall|a: int, b: int|
                0 <= a < b < diffs@.len() ==> precedes(
                    #[trigger] resource_rows(diffs@)[a].address,
                    #[trigger] resource_rows(diffs@)[b].address,
                ),
            forall|a: int, k: int|
                0 <= a < diffs@.len() && i <= k < keys.len() ==> precedes(
                    #[trigger] resource_rows(diffs@)[a].address,
                    #[trigger] keys[k],
                ),
            forall|a: int|
                0 <= a < diffs@.len() ==> {
                    let at = (#[trigger] resource_rows(diffs@)[a]).address;
                    &&& resource_differs(o.get(at), n.get(at))
                    &&& is_resource_row(o.get(at), n.get(at), resource_rows(diffs@)[a])
                },
            forall|k: int|
                0 <= k < i && resource_differs(o.get(#[trigger] keys[k]), n.get(keys[k]))
                    ==> exists|a: int|
                    0 <= a < diffs@.len() && (#[trigger] resource_rows(diffs@)[a]).address
                        == keys[k],
        decreases addrs@.len() - i,
    {
        let ghost had = resource_rows(diffs@);
        let addr = &addrs[i];
        assert(keys[i as int] == addr@);
        let old_instance = old_index.get(addr.as_str());
        let new_instance = new_index.get(addr.as_str());
        assert(o.get(addr@) == match old_instance {
            Some(x) => Some(x.attributes@),
            None => None,
        });
        assert(n.get(addr@) == match new_instance {
            Some(x) => Some(x.attributes@),
            None => None,
        });
        let found = match (old_instance, new_instance) {
            (None, Some(_)) => Some(
                ResourceDiff {
                    address: addr.clone(),
                    kind: ResourceChangeKind::Created,
                    attr_changes: Vec::new(),
                },
            ),
            (Some(_), None) => Some(
                ResourceDiff {
                    address: addr.clone(),
                    kind: ResourceChangeKind::Destroyed,
                    attr_changes: Vec::new(),
                },
            ),
            (Some(old_inst), Some(new_inst)) => {
                let changes = diff_attributes(&old_inst.attributes, &new_inst.attributes);
                proof {
                    no_attr_rows(
                        leaf_map(old_inst.attributes@),
                        leaf_map(new_inst.attributes@),
                        attr_rows(changes@),
                    );
                }
                if changes.len() > 0 {
                    Some(
                        ResourceDiff {
                            address: addr.clone(),
                            kind: ResourceChangeKind::Changed,
                            attr_changes: changes,
                        },
                    )
                } else {
                    None
                }
            },
            (None, None) => None,
        };
        match found {
            Some(diff) => {
                assert(is_resource_row(o.get(addr@), n.get(addr@), diff@));
                diffs.push(diff);
                assert(resource_rows(diffs@) =~= had.push(diff@));
            },
            None => {
                assert(!resource_differs(o.get(addr@), n.get(addr@)));
            },
        }
        i = i + 1;
        proof {
            let now = resource_rows(diffs@);
            assert forall|k: int|
                0 <= k < i && resource_differs(
                    o.get(#[trigger] keys[k]),
                    n.get(keys[k]),
                ) implies exists|a: int|
                0 <= a < now.len() && (#[trigger] now[a]).address == keys[k] by {
                if k < i - 1 {
                    let a = choose|a: int|
                        0 <= a < had.len() && (#[trigger] had[a]).address == keys[k];
                    assert(now[a] == had[a]);
                } else {
                    assert(now[had.len() as int].address == keys[k]);
                }
            }
        }
    }
    proof {
        let rows = resource_rows(diffs@);
        let own = row_addresses(rows);
        assert forall|a: int, b: int| 0 <= a < b < own.len() implies precedes(
            #[trigger] own[a],
            #[trigger] own[b],
        ) by {
            assert(precedes(rows[a].address, rows[b].address));
        }
        assert forall|at: Seq<char>| #[trigger] own.contains(at) <==> resource_differs(
            o.get(at),
            n.get(at),
        ) by {
            if own.contains(at) {
                let a = choose|a: int| 0 <= a < own.len() && own[a] == at;
                assert(rows[a].address == at);
            }
            if resource_differs(o.get(at), n.get(at)) {
                assert(old_index@.contains_key(at) || new_index@.contains_key(at));
                assert(keys.contains(at));
                let k = choose|k: int| 0 <= k < keys.len() && keys[k] == at;
                let a = choose|a: int|
                    0 <= a < rows.len() && (#[trigger] rows[a]).address == keys[k];
                assert(own[a] == at);
            }
        }
    }
    diffs
}

} // verus!
