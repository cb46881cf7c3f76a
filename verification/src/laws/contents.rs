//! What the views of the types hold: nothing that a comparison reads is lost in them.
use vstd::prelude::*;

use crate::diff::StateComparison;
use crate::diff::attributes::AttrChange;
use crate::diff::attributes::attr_rows;
use crate::diff::outputs::OutputDiff;
use crate::diff::outputs::output_rows;
use crate::diff::resources::ResourceDiff;
use crate::diff::resources::all_listed;
use crate::diff::resources::found;
use crate::diff::resources::indexed;
use crate::diff::resources::listed;
use crate::diff::resources::resource_rows;
use crate::flatten::texts;
use crate::json::holds;
use crate::json::items_hold;
use crate::json::members_hold;
use crate::json::number_model;
use crate::laws::paths::last_of_key;
use crate::laws::paths::overlay_contents;
use crate::map::SortedMap;
use crate::map::ascending;
use crate::map::increasing;
use crate::map::key_views;
use crate::state::InstanceState;
use crate::state::OutputValue;
use crate::state::ResourceState;
use crate::state::TfState;
use crate::state::address;
use crate::state::output_views;
use crate::state::resource_views;
use crate::text::precedes;
use crate::value::Json;
use crate::value::JsonView;
use crate::value::Num;
use crate::value::NumView;

verus! {

/// A JSON value stands for the value of its kind with the same contents, items in their
/// order and members in that of the map.
pub proof fn json_stands_for_its_contents(
    v: Json,
    b: bool,
    n: Num,
    s: String,
    items: Vec<Json>,
    map: SortedMap<Json>,
)
    ensures
        Json::Null@ == JsonView::Null,
        Json::Bool(b)@ == JsonView::Bool(b),
        Json::Num(n)@ == JsonView::Num(n@),
        Json::String(s)@ == JsonView::String(s@),
        Json::Array(items)@ matches JsonView::Array(x) && x.len() == items@.len() && forall|i: int|
            0 <= i < items@.len() ==> (#[trigger] x[i]) == items@[i]@,
        Json::Object(map)@ matches JsonView::Object(x) && x.len() == map.members().len() && forall|
            i: int,
        |
            0 <= i < map.members().len() ==> (#[trigger] x[i]) == (
                map.members()[i].0,
                map.members()[i].1@,
            ),
{
}

/// An integer stands for itself, and any other number for what the JSON library holds.
pub proof fn number_stands_for_itself(u: u64, i: i64, n: serde_json::Number)
    ensures
        Num::PosInt(u)@ == NumView::Int(u as int),
        Num::NegInt(i)@ == NumView::Int(i as int),
        Num::Float(n)@ == number_model(n),
{
}

/// The items and members of a value of the JSON library hold what each of them holds.
pub proof fn parts_hold_one_by_one(
    items: Seq<serde_json::Value>,
    members: Seq<(String, serde_json::Value)>,
)
    ensures
        items_hold(items).len() == items.len(),
        forall|i: int| 0 <= i < items.len() ==> #[trigger] items_hold(items)[i] == holds(items[i]),
        members_hold(members).len() == members.len(),
        forall|i: int|
            0 <= i < members.len() ==> #[trigger] members_hold(members)[i] == (
                members[i].0@,
                holds(members[i].1),
            ),
{
}

/// The view of a state has its serial, its lineage, all its outputs under their names, and
/// all its resources in their order.
pub proof fn state_view_is_complete(state: TfState)
    ensures
        state@.serial == state.serial,
        state@.lineage == state.lineage@,
        forall|name: Seq<char>| #[trigger]
            state@.outputs.contains_key(name) <==> state.outputs@.contains_key(name),
        forall|name: Seq<char>|
            state.outputs@.contains_key(name) ==> {
                let output = #[trigger] state@.outputs[name];
                &&& output.value == state.outputs@[name].value@
                &&& output.sensitive == state.outputs@[name].sensitive
            },
        state@.resources.len() == state.resources@.len(),
        forall|i: int|
            0 <= i < state.resources@.len() ==> #[trigger] state@.resources[i]
                == state.resources@[i]@,
{
}

/// The view of a resource has its module, mode, type and name, and of each instance, in
/// their order, the index key and the attributes.
pub proof fn resource_view_is_complete(resource: ResourceState)
    ensures
        resource@.module == resource.module@,
        resource@.mode == resource.mode@,
        resource@.resource_type == resource.resource_type@,
        resource@.name == resource.name@,
        resource@.instances.len() == resource.instances@.len(),
        forall|i: int|
            0 <= i < resource.instances@.len() ==> {
                let instance = #[trigger] resource@.instances[i];
                &&& instance.attributes == resource.instances@[i].attributes@
                &&& resource.instances@[i].index_key matches Some(key) ==> instance.index_key
                    == Some(key@)
                &&& resource.instances@[i].index_key is None ==> instance.index_key is None
            },
{
}

/// Lists and maps are viewed one by one, with nothing left out.
pub proof fn lists_are_viewed_one_by_one(
    resources: Seq<ResourceState>,
    outputs: SortedMap<OutputValue>,
    map: SortedMap<String>,
    keys: Seq<String>,
    key: Seq<char>,
)
    ensures
        resource_views(resources).len() == resources.len(),
        forall|i: int|
            0 <= i < resources.len() ==> #[trigger] resource_views(resources)[i] == resources[i]@,
        output_views(outputs).contains_key(key) <==> outputs@.contains_key(key),
        outputs@.contains_key(key) ==> output_views(outputs)[key].value == outputs@[key].value@,
        outputs@.contains_key(key) ==> output_views(outputs)[key].sensitive
            == outputs@[key].sensitive,
        texts(map).contains_key(key) <==> map@.contains_key(key),
        map@.contains_key(key) ==> texts(map)[key] == map@[key]@,
        key_views(keys).len() == keys.len(),
        forall|i: int| 0 <= i < keys.len() ==> #[trigger] key_views(keys)[i] == keys[i]@,
{
}

/// The view of a comparison has all its fields, and all rows in their order.
pub proof fn comparison_view_is_complete(c: StateComparison)
    ensures
        c@.lineage_matches == c.lineage_matches,
        c@.old_lineage == c.old_lineage@,
        c@.new_lineage == c.new_lineage@,
        c@.old_serial == c.old_serial,
        c@.new_serial == c.new_serial,
        c@.resources.len() == c.resource_diffs@.len(),
        forall|i: int|
            0 <= i < c.resource_diffs@.len() ==> #[trigger] c@.resources[i]
                == c.resource_diffs@[i]@,
        c@.outputs.len() == c.output_diffs@.len(),
        forall|i: int|
            0 <= i < c.output_diffs@.len() ==> #[trigger] c@.outputs[i] == c.output_diffs@[i]@,
{
}

/// The rows of a list of differing things are viewed one by one, each with all its fields.
pub proof fn rows_are_viewed_one_by_one(
    changes: Seq<AttrChange>,
    resources: Seq<ResourceDiff>,
    outputs: Seq<OutputDiff>,
)
    ensures
        attr_rows(changes).len() == changes.len(),
        forall|i: int|
            0 <= i < changes.len() ==> {
                let row = #[trigger] attr_rows(changes)[i];
                &&& row.path == changes[i].path@
                &&& row.old is None <==> changes[i].old is None
                &&& changes[i].old matches Some(t) ==> row.old == Some(t@)
                &&& row.new is None <==> changes[i].new is None
                &&& changes[i].new matches Some(t) ==> row.new == Some(t@)
            },
        resource_rows(resources).len() == resources.len(),
        forall|i: int|
            0 <= i < resources.len() ==> {
                let row = #[trigger] resource_rows(resources)[i];
                &&& row.address == resources[i].address@
                &&& row.kind == resources[i].kind
                &&& row.changes.len() == resources[i].attr_changes@.len()
                &&& forall|j: int|
                    0 <= j < resources[i].attr_changes@.len() ==> #[trigger] row.changes[j]
                        == resources[i].attr_changes@[j]@
            },
        output_rows(outputs).len() == outputs.len(),
        forall|i: int|
            0 <= i < outputs.len() ==> {
                let row = #[trigger] output_rows(outputs)[i];
                &&& row.name == outputs[i].name@
                &&& row.old is None <==> outputs[i].old is None
                &&& outputs[i].old matches Some(t) ==> row.old == Some(t@)
                &&& row.new is None <==> outputs[i].new is None
                &&& outputs[i].new matches Some(t) ==> row.new == Some(t@)
            },
{
}

/// An instance that has no index key and one that has one are told apart, and the view
/// keeps both the key and the attributes.
pub proof fn instance_view_is_complete(a: InstanceState, b: InstanceState)
    requires
        a@ == b@,
    ensures
        a.attributes@ == b.attributes@,
        a.index_key is Some <==> b.index_key is Some,
        a.index_key is Some ==> a.index_key->0@ == b.index_key->0@,
{
}

/// A map holds its members: the keys that stand in it are those of the members, with the
/// value of the last member that has the key.
pub proof fn map_holds_its_members<V>(map: SortedMap<V>, key: Seq<char>)
    ensures
        map@.contains_key(key) <==> exists|i: int|
            0 <= i < map.members().len() && (#[trigger] map.members()[i]).0 == key,
        forall|i: int|
            0 <= i < map.members().len() && (#[trigger] map.members()[i]).0 == key && (forall|
                j: int,
            | i < j < map.members().len() ==> (#[trigger] map.members()[j]).0 != key)
                ==> map@[key] == map.members()[i].1,
{
    overlay_contents(Map::empty(), map.members(), key);
    if exists|i: int| 0 <= i < map.members().len() && (#[trigger] map.members()[i]).0 == key {
        let at = last_of_key(map.members(), key);
        assert(map@.get(key) == Some(map.members()[at].1));
    } else {
        assert(map@.get(key) is None);
    }
}

/// Keys ascend where each comes before every later one.
pub proof fn ascending_keys_come_in_order<V>(s: Seq<(Seq<char>, V)>, keys: Seq<Seq<char>>)
    ensures
        ascending(s) <==> forall|i: int, j: int|
            0 <= i < j < s.len() ==> precedes((#[trigger] s[i]).0, (#[trigger] s[j]).0),
        increasing(keys) <==> forall|i: int, j: int|
            0 <= i < j < keys.len() ==> precedes(#[trigger] keys[i], #[trigger] keys[j]),
{
    if ascending(s) {
        assert forall|i: int, j: int| 0 <= i < j < s.len() implies precedes(
            (#[trigger] s[i]).0,
            (#[trigger] s[j]).0,
        ) by {
            assert(precedes(s[i].0, s[j].0));
        }
    }
}

/// The instances of resources are listed one by one, in their order, each under its own
/// address, and an index has at each address what was entered there.
pub proof fn instances_are_listed_one_by_one(
    resources: Seq<ResourceState>,
    resource: ResourceState,
    index: SortedMap<&InstanceState>,
    key: Seq<char>,
)
    ensures
        listed(resource).len() == resource.instances@.len(),
        forall|i: int|
            0 <= i < resource.instances@.len() ==> #[trigger] listed(resource)[i] == (
                address(resource@, resource.instances@[i]@.index_key),
                resource.instances@[i],
            ),
        all_listed(seq![]) == Seq::<(Seq<char>, InstanceState)>::empty(),
        all_listed(resources.push(resource)) == all_listed(resources) + listed(resource),
        found(index).contains_key(key) <==> index@.contains_key(key),
        index@.contains_key(key) ==> found(index)[key] == *index@[key],
        index@.contains_key(key) ==> indexed(index)[key] == index@[key].attributes@,
{
    assert(resources.push(resource).drop_last() =~= resources);
}

} // verus!
