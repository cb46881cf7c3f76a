//! Nested JSON values as flat listings of dotted paths.
use vstd::prelude::*;

use crate::json::display;
use crate::json::json_text;
use crate::map::SortedMap;
use crate::map::overlay;
use crate::map::overlay_concat;
use crate::text::decimal;
use crate::text::push_decimal;
use crate::value::Json;
use crate::value::JsonView;

verus! {

/// The path of an object member: its key, behind a dot where there is a path
/// already.
pub open spec fn member_path(prefix: Seq<char>, key: Seq<char>) -> Seq<char> {
    if prefix.len() == 0 {
        key
    } else {
        prefix.push('.') + key
    }
}

/// The path of an array item: its position in brackets behind the path of the array.
pub open spec fn item_path(prefix: Seq<char>, i: nat) -> Seq<char> {
    (prefix.push('[') + decimal(i)).push(']')
}

/// The leaves of a value with their paths and texts, in the order in which they
/// stand in it. Only scalars are leaves; a string is shown without quotes.
pub open spec fn leaves(prefix: Seq<char>, v: JsonView) -> Seq<(Seq<char>, Seq<char>)>
    decreases v,
{
    match v {
        JsonView::Object(members) => member_leaves(prefix, members),
        JsonView::Array(items) => item_leaves(prefix, items),
        JsonView::String(s) => seq![(prefix, s)],
        _ => seq![(prefix, json_text(v))],
    }
}

/// The leaves of the members of an object.
pub open spec fn member_leaves(prefix: Seq<char>, members: Seq<(Seq<char>, JsonView)>) -> Seq<
    (Seq<char>, Seq<char>),
>
    decreases members,
{
    if members.len() == 0 {
        seq![]
    } else {
        let (key, v) = members.last();
        member_leaves(prefix, members.drop_last()) + leaves(member_path(prefix, key), v)
    }
}

/// The leaves of the items of an array.
pub open spec fn item_leaves(prefix: Seq<char>, items: Seq<JsonView>) -> Seq<
    (Seq<char>, Seq<char>),
>
    decreases items,
{
    if items.len() == 0 {
        seq![]
    } else {
        item_leaves(prefix, items.drop_last()) + leaves(
            item_path(prefix, (items.len() - 1) as nat),
            items.last(),
        )
    }
}

/// The contents of a map of texts.
pub open spec fn texts(map: SortedMap<String>) -> Map<Seq<char>, Seq<char>> {
    map@.map_values(|s: String| s@)
}

/// Enters one leaf.
fn add_leaf(path: &str, text: String, out: &mut SortedMap<String>)
    ensures
        texts(*final(out)) == overlay(texts(*old(out)), seq![(path@, text@)]),
{
    let ghost text_view = text@;
    out.insert(path.to_owned(), text);
    proof {
        let leaf = seq![(path@, text_view)];
        assert(overlay(texts(*old(out)), leaf.drop_last()) == texts(*old(out)));
        assert(texts(*out) =~= overlay(texts(*old(out)), leaf));
    }
}

/// Flattens a value: enters the text of each of its leaves under the path of the
/// leaf. Object members add `.key` to a path and array items `[index]`; where two
/// leaves share a path, the later one counts.
pub fn flatten(prefix: &str, value: &Json, out: &mut SortedMap<String>)
    ensures
        texts(*final(out)) == overlay(texts(*old(out)), leaves(prefix@, value@)),
    decreases value@,
{
    match value {
        Json::Object(map) => {
            let ghost members = value@->Object_0;
            let n = map.len();
            let mut i: usize = 0;
            assert(members.take(0) =~= seq![]);
            while i < n
                invariant
                    i <= n,
                    n == map.members().len(),
                    members.len() == n,
                    value@ == JsonView::Object(members),
                    forall|k: int|
                        0 <= k < n ==> #[trigger] members[k] == (
                            map.members()[k].0,
                            map.members()[k].1@,
                        ),
                    texts(*out) == overlay(
                        texts(*old(out)),
                        member_leaves(prefix@, members.take(i as int)),
                    ),
                decreases n - i,
            {
                let (key, item) = map.entry(i);
                let mut path = String::new();
                if !prefix.is_empty() {
                    path.push_str(prefix);
                    path.push('.');
                }
                path.push_str(key.as_str());
                assert(path@ =~= member_path(prefix@, key@));
                proof {
                    assert(decreases_to!(value@ => value@->Object_0));
                    assert(decreases_to!(members => members[i as int]));
                    assert(decreases_to!(members[i as int] => members[i as int].1));
                    assert(members[i as int] == (key@, item@));
                    assert(members.take(i + 1).drop_last() =~= members.take(i as int));
                    overlay_concat(
                        texts(*old(out)),
                        member_leaves(prefix@, members.take(i as int)),
                        leaves(path@, item@),
                    );
                }
                flatten(path.as_str(), item, out);
                i = i + 1;
            }
            assert(members.take(n as int) =~= members);
        },
        Json::Array(items) => {
            let ghost models = value@->Array_0;
            let mut i: usize = 0;
            assert(models.take(0) =~= seq![]);
            while i < items.len()
                invariant
                    i <= items@.len(),
                    models.len() == items@.len(),
                    value@ == JsonView::Array(models),
                    forall|k: int| 0 <= k < items@.len() ==> #[trigger] models[k] == items@[k]@,
                    texts(*out) == overlay(
                        texts(*old(out)),
                        item_leaves(prefix@, models.take(i as int)),
                    ),
                decreases items@.len() - i,
            {
                let mut path = String::new();
                path.push_str(prefix);
                path.push('[');
                push_decimal(&mut path, i as u64);
                path.push(']');
                assert(path@ =~= item_path(prefix@, i as nat));
                proof {
                    assert(decreases_to!(value@ => value@->Array_0));
                    assert(decreases_to!(models => models[i as int]));
                    assert(models[i as int] == items@[i as int]@);
                    assert(models.take(i + 1).drop_last() =~= models.take(i as int));
                    overlay_concat(
                        texts(*old(out)),
                        item_leaves(prefix@, models.take(i as int)),
                        leaves(path@, items@[i as int]@),
                    );
                }
                flatten(path.as_str(), &items[i], out);
                i = i + 1;
            }
            assert(models.take(items@.len() as int) =~= models);
        },
        Json::Null => add_leaf(prefix, "null".to_owned(), out),
        Json::String(s) => add_leaf(prefix, s.clone(), out),
        other => add_leaf(prefix, display(other), out),
    }
}

} // verus!
