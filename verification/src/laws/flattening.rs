//! What flattening finds in a value: every scalar, once, under its own path.
use vstd::prelude::*;

use crate::diff::attributes::leaf_map;
use crate::flatten::item_leaves;
use crate::flatten::item_path;
use crate::flatten::leaves;
use crate::flatten::member_leaves;
use crate::flatten::member_path;
use crate::json::number_text;
use crate::laws::paths::last_of_key;
use crate::laws::paths::overlay_contents;
use crate::text::decimal;
use crate::value::JsonView;

verus! {

/// The text of a scalar: of a string the string itself, of a number its numeral, and the
/// words `null`, `true` and `false`. Arrays and objects have none.
pub open spec fn scalar_text(v: JsonView) -> Option<Seq<char>> {
    match v {
        JsonView::Null => Some("null"@),
        JsonView::Bool(b) => Some(
            if b {
                "true"@
            } else {
                "false"@
            },
        ),
        JsonView::Num(n) => Some(number_text(n)),
        JsonView::String(s) => Some(s),
        JsonView::Array(_) => None,
        JsonView::Object(_) => None,
    }
}

/// What stands in a value at the end of a route: each number of the route is a position
/// among the items of an array or the members of an object.
pub open spec fn at_route(v: JsonView, route: Seq<nat>) -> Option<JsonView>
    decreases route.len(),
{
    if route.len() == 0 {
        Some(v)
    } else {
        match v {
            JsonView::Array(items) => if route[0] < items.len() {
                at_route(items[route[0] as int], route.drop_first())
            } else {
                None
            },
            JsonView::Object(members) => if route[0] < members.len() {
                at_route(members[route[0] as int].1, route.drop_first())
            } else {
                None
            },
            _ => None,
        }
    }
}

/// The path of what stands at the end of a route: an item adds its position in brackets,
/// and a member its key, behind a dot where there is a path already.
pub open spec fn route_path(prefix: Seq<char>, v: JsonView, route: Seq<nat>) -> Seq<char>
    decreases route.len(),
{
    if route.len() == 0 {
        prefix
    } else {
        let k = route[0] as int;
        match v {
            JsonView::Array(items) => route_path(
                prefix + seq!['['] + decimal(route[0]) + seq![']'],
                items[k],
                route.drop_first(),
            ),
            JsonView::Object(members) => route_path(
                if prefix.len() == 0 {
                    members[k].0
                } else {
                    prefix + seq!['.'] + members[k].0
                },
                members[k].1,
                route.drop_first(),
            ),
            _ => prefix,
        }
    }
}

/// Whether a route leads to a scalar with a path and a text.
pub open spec fn leads_to(
    prefix: Seq<char>,
    v: JsonView,
    route: Seq<nat>,
    leaf: (Seq<char>, Seq<char>),
) -> bool {
    &&& at_route(v, route) matches Some(x) && scalar_text(x) == Some(leaf.1)
    &&& route_path(prefix, v, route) == leaf.0
}

/// The leaves of a value are made up of those of its parts, in their order: a scalar is
/// one leaf under the path of the value, an array has the leaves of each item under the
/// path with the position in brackets, and an object those of each member under the path
/// with the key behind a dot, or under the key where there is no path.
pub proof fn leaves_add_up(
    prefix: Seq<char>,
    items: Seq<JsonView>,
    members: Seq<(Seq<char>, JsonView)>,
    key: Seq<char>,
    x: JsonView,
)
    ensures
        scalar_text(x) matches Some(t) ==> leaves(prefix, x) == seq![(prefix, t)],
        leaves(prefix, JsonView::Array(seq![])) == Seq::<(Seq<char>, Seq<char>)>::empty(),
        leaves(prefix, JsonView::Object(seq![])) == Seq::<(Seq<char>, Seq<char>)>::empty(),
        leaves(prefix, JsonView::Array(items.push(x))) == leaves(prefix, JsonView::Array(items))
            + leaves(prefix + seq!['['] + decimal(items.len()) + seq![']'], x),
        prefix.len() > 0 ==> leaves(prefix, JsonView::Object(members.push((key, x)))) == leaves(
            prefix,
            JsonView::Object(members),
        ) + leaves(prefix + seq!['.'] + key, x),
        prefix.len() == 0 ==> leaves(prefix, JsonView::Object(members.push((key, x)))) == leaves(
            prefix,
            JsonView::Object(members),
        ) + leaves(key, x),
{
    let more_items = items.push(x);
    let more_members = members.push((key, x));
    assert(more_items.drop_last() =~= items);
    assert(more_members.drop_last() =~= members);
    assert(item_path(prefix, items.len()) =~= prefix + seq!['['] + decimal(items.len()) + seq![']']);
    if prefix.len() > 0 {
        assert(member_path(prefix, key) =~= prefix + seq!['.'] + key);
    }
    assert(leaves(prefix, JsonView::Array(more_items)) == item_leaves(prefix, more_items));
    assert(leaves(prefix, JsonView::Object(more_members)) == member_leaves(prefix, more_members));
}

/// Every leaf of an item of an array, under the path of the item, is a leaf of the array.
pub proof fn array_has_leaves_of_items(
    prefix: Seq<char>,
    items: Seq<JsonView>,
    i: nat,
    leaf: (Seq<char>, Seq<char>),
)
    requires
        i < items.len(),
        leaves(prefix + seq!['['] + decimal(i) + seq![']'], items[i as int]).contains(leaf),
    ensures
        leaves(prefix, JsonView::Array(items)).contains(leaf),
    decreases items.len(),
{
    let front = items.drop_last();
    let n = front.len();
    assert(items =~= front.push(items.last()));
    leaves_add_up(prefix, front, seq![], seq![], items.last());
    let before = leaves(prefix, JsonView::Array(front));
    let own = leaves(prefix + seq!['['] + decimal(n) + seq![']'], items.last());
    if i < n {
        array_has_leaves_of_items(prefix, front, i, leaf);
        let k = choose|k: int| 0 <= k < before.len() && before[k] == leaf;
        assert((before + own)[k] == leaf);
    } else {
        let k = choose|k: int| 0 <= k < own.len() && own[k] == leaf;
        assert((before + own)[before.len() + k] == leaf);
    }
}

/// Every leaf of a member of an object, under the path of the member, is a leaf of the
/// object.
pub proof fn object_has_leaves_of_members(
    prefix: Seq<char>,
    members: Seq<(Seq<char>, JsonView)>,
    i: nat,
    leaf: (Seq<char>, Seq<char>),
)
    requires
        i < members.len(),
        leaves(
            if prefix.len() == 0 {
                members[i as int].0
            } else {
                prefix + seq!['.'] + members[i as int].0
            },
            members[i as int].1,
        ).contains(leaf),
    ensures
        leaves(prefix, JsonView::Object(members)).contains(leaf),
    decreases members.len(),
{
    let front = members.drop_last();
    let (key, x) = members.last();
    assert(members =~= front.push((key, x)));
    leaves_add_up(prefix, seq![], front, key, x);
    let before = leaves(prefix, JsonView::Object(front));
    let own = leaves(
        if prefix.len() == 0 {
            key
        } else {
            prefix + seq!['.'] + key
        },
        x,
    );
    if i < front.len() {
        object_has_leaves_of_members(prefix, front, i, leaf);
        let k = choose|k: int| 0 <= k < before.len() && before[k] == leaf;
        assert((before + own)[k] == leaf);
    } else {
        let k = choose|k: int| 0 <= k < own.len() && own[k] == leaf;
        assert((before + own)[before.len() + k] == leaf);
    }
}

/// Every scalar that a route leads to is a leaf, under the path of the route.
pub proof fn every_scalar_is_a_leaf(
    prefix: Seq<char>,
    v: JsonView,
    route: Seq<nat>,
    leaf: (Seq<char>, Seq<char>),
)
    requires
        leads_to(prefix, v, route, leaf),
    ensures
        leaves(prefix, v).contains(leaf),
    decreases route.len(),
{
    if route.len() == 0 {
        leaves_add_up(prefix, seq![], seq![], seq![], v);
        assert(leaves(prefix, v)[0] == leaf);
    } else {
        match v {
            JsonView::Array(items) => {
                every_scalar_is_a_leaf(
                    prefix + seq!['['] + decimal(route[0]) + seq![']'],
                    items[route[0] as int],
                    route.drop_first(),
                    leaf,
                );
                array_has_leaves_of_items(prefix, items, route[0], leaf);
            },
            JsonView::Object(members) => {
                let member = members[route[0] as int];
                every_scalar_is_a_leaf(
                    if prefix.len() == 0 {
                        member.0
                    } else {
                        prefix + seq!['.'] + member.0
                    },
                    member.1,
                    route.drop_first(),
                    leaf,
                );
                object_has_leaves_of_members(prefix, members, route[0], leaf);
            },
            _ => {},
        }
    }
}

/// Every leaf is a scalar that some route leads to, under the path of that route.
pub proof fn every_leaf_is_a_scalar(
    prefix: Seq<char>,
    v: JsonView,
    leaf: (Seq<char>, Seq<char>),
)
    requires
        leaves(prefix, v).contains(leaf),
    ensures
        exists|route: Seq<nat>| #[trigger] leads_to(prefix, v, route, leaf),
    decreases v,
{
    match v {
        JsonView::Array(items) => {
            let (i, route) = item_of_leaf(prefix, items, leaf);
            let whole = seq![i] + route;
            assert(whole.drop_first() =~= route);
            assert(leads_to(prefix, v, whole, leaf));
        },
        JsonView::Object(members) => {
            let (i, route) = member_of_leaf(prefix, members, leaf);
            let whole = seq![i] + route;
            assert(whole.drop_first() =~= route);
            assert(leads_to(prefix, v, whole, leaf));
        },
        _ => {
            leaves_add_up(prefix, seq![], seq![], seq![], v);
            assert(leads_to(prefix, v, seq![], leaf));
        },
    }
}

proof fn item_of_leaf(
    prefix: Seq<char>,
    items: Seq<JsonView>,
    leaf: (Seq<char>, Seq<char>),
) -> (found: (nat, Seq<nat>))
    requires
        leaves(prefix, JsonView::Array(items)).contains(leaf),
    ensures
        found.0 < items.len(),
        leads_to(
            prefix + seq!['['] + decimal(found.0) + seq![']'],
            items[found.0 as int],
            found.1,
            leaf,
        ),
    decreases items,
{
    let all = leaves(prefix, JsonView::Array(items));
    let k = choose|k: int| 0 <= k < all.len() && all[k] == leaf;
    if items.len() == 0 {
        leaves_add_up(prefix, seq![], seq![], seq![], JsonView::Null);
        assert(items =~= seq![]);
    }
    let front = items.drop_last();
    let n = front.len();
    let path = prefix + seq!['['] + decimal(n) + seq![']'];
    assert(items =~= front.push(items.last()));
    leaves_add_up(prefix, front, seq![], seq![], items.last());
    let before = leaves(prefix, JsonView::Array(front));
    let own = leaves(path, items.last());
    if k < before.len() {
        assert(before[k] == leaf);
        let found = item_of_leaf(prefix, front, leaf);
        assert(front[found.0 as int] == items[found.0 as int]);
        found
    } else {
        assert(own[k - before.len()] == leaf);
        every_leaf_is_a_scalar(path, items.last(), leaf);
        (n, choose|route: Seq<nat>| #[trigger] leads_to(path, items.last(), route, leaf))
    }
}

proof fn member_of_leaf(
    prefix: Seq<char>,
    members: Seq<(Seq<char>, JsonView)>,
    leaf: (Seq<char>, Seq<char>),
) -> (found: (nat, Seq<nat>))
    requires
        leaves(prefix, JsonView::Object(members)).contains(leaf),
    ensures
        found.0 < members.len(),
        leads_to(
            if prefix.len() == 0 {
                members[found.0 as int].0
            } else {
                prefix + seq!['.'] + members[found.0 as int].0
            },
            members[found.0 as int].1,
            found.1,
            leaf,
        ),
    decreases members,
{
    let all = leaves(prefix, JsonView::Object(members));
    let k = choose|k: int| 0 <= k < all.len() && all[k] == leaf;
    if members.len() == 0 {
        leaves_add_up(prefix, seq![], seq![], seq![], JsonView::Null);
        assert(members =~= seq![]);
    }
    let front = members.drop_last();
    let (key, x) = members.last();
    let path = if prefix.len() == 0 {
        key
    } else {
        prefix + seq!['.'] + key
    };
    assert(members =~= front.push((key, x)));
    assert(decreases_to!(members => members[members.len() - 1]));
    assert(decreases_to!(members[members.len() - 1] => members[members.len() - 1].1));
    leaves_add_up(prefix, seq![], front, key, x);
    let before = leaves(prefix, JsonView::Object(front));
    let own = leaves(path, x);
    if k < before.len() {
        assert(before[k] == leaf);
        let found = member_of_leaf(prefix, front, leaf);
        assert(front[found.0 as int] == members[found.0 as int]);
        found
    } else {
        assert(own[k - before.len()] == leaf);
        every_leaf_is_a_scalar(path, x, leaf);
        (front.len(), choose|route: Seq<nat>| #[trigger] leads_to(path, x, route, leaf))
    }
}

/// A flat value has the text of a scalar under the path of the scalar, where no other
/// scalar with another text has the same path.
pub proof fn flat_value_has_every_scalar(
    v: JsonView,
    route: Seq<nat>,
    leaf: (Seq<char>, Seq<char>),
)
    requires
        leads_to(seq![], v, route, leaf),
        forall|other: Seq<nat>, text: Seq<char>| #[trigger]
            leads_to(seq![], v, other, (leaf.0, text)) ==> text == leaf.1,
    ensures
        leaf_map(v).get(leaf.0) == Some(leaf.1),
{
    let s = leaves(seq![], v);
    every_scalar_is_a_leaf(seq![], v, route, leaf);
    let k = choose|k: int| 0 <= k < s.len() && s[k] == leaf;
    let at = last_of_key(s, leaf.0);
    assert(at >= k);
    assert(s.contains(s[at]));
    every_leaf_is_a_scalar(seq![], v, s[at]);
    let other = choose|other: Seq<nat>| #[trigger] leads_to(seq![], v, other, s[at]);
    assert(s[at] == (leaf.0, s[at].1));
    assert(leads_to(seq![], v, other, (leaf.0, s[at].1)));
    overlay_contents(Map::empty(), s, leaf.0);
}

/// A flat value has nothing but the texts of scalars under their paths.
pub proof fn flat_value_has_scalars_only(v: JsonView, path: Seq<char>)
    requires
        leaf_map(v).contains_key(path),
    ensures
        exists|route: Seq<nat>| #[trigger]
            leads_to(seq![], v, route, (path, leaf_map(v)[path])),
{
    let s = leaves(seq![], v);
    overlay_contents(Map::empty(), s, path);
    let at = last_of_key(s, path);
    if at >= 0 {
        assert(s.contains(s[at]));
        every_leaf_is_a_scalar(seq![], v, s[at]);
        let route = choose|route: Seq<nat>| #[trigger] leads_to(seq![], v, route, s[at]);
        assert(leaf_map(v).get(path) == Some(s[at].1));
        assert(s[at] == (path, leaf_map(v)[path]));
    } else {
        assert(leaf_map(v).get(path) is None);
    }
}

/// Where several leaves share a path, a flat value has the text of the last of them.
pub proof fn flat_value_has_the_last_leaf(v: JsonView, i: int)
    requires
        0 <= i < leaves(seq![], v).len(),
        forall|j: int|
            i < j < leaves(seq![], v).len() ==> (#[trigger] leaves(seq![], v)[j]).0 != leaves(
                seq![],
                v,
            )[i].0,
    ensures
        leaf_map(v).get(leaves(seq![], v)[i].0) == Some(leaves(seq![], v)[i].1),
{
    overlay_contents(Map::empty(), leaves(seq![], v), leaves(seq![], v)[i].0);
}

} // verus!
