//! Which attributes of an instance changed.
use vstd::prelude::*;

use crate::flatten::flatten;
use crate::flatten::leaves;
use crate::flatten::texts;
use crate::map::SortedMap;
use crate::map::all_keys;
use crate::map::increasing;
use crate::map::key_views;
use crate::map::overlay;
use crate::sensitive::is_sensitive_path;
use crate::sensitive::redact;
use crate::sensitive::sensitive;
use crate::sensitive::shown;
use crate::text::precedes;
use crate::value::Json;
use crate::value::JsonView;

verus! {

/// A changed attribute: its path, and what is shown of it on either side, where it
/// is there.
#[derive(Debug, Clone, PartialEq, Eq)]
pub struct AttrChange {
    pub path: String,
    pub old: Option<String>,
    pub new: Option<String>,
}

/// What an [`AttrChange`] says.
pub struct AttrRow {
    pub path: Seq<char>,
    pub old: Option<Seq<char>>,
    pub new: Option<Seq<char>>,
}

/// The text of an optional string.
pub open spec fn text_of(s: Option<String>) -> Option<Seq<char>> {
    match s {
        Some(t) => Some(t@),
        None => None,
    }
}

impl View for AttrChange {
    type V = AttrRow;

    open spec fn view(&self) -> AttrRow {
        AttrRow { path: self.path@, old: text_of(self.old), new: text_of(self.new) }
    }
}

/// What a list of changes says.
pub open spec fn attr_rows(changes: Seq<AttrChange>) -> Seq<AttrRow> {
    changes.map_values(|c: AttrChange| c@)
}

/// The paths of the rows of an attribute difference, in order.
pub open spec fn row_paths(rows: Seq<AttrRow>) -> Seq<Seq<char>> {
    rows.map_values(|r: AttrRow| r.path)
}

/// The flat contents of an attribute tree: the text of each leaf under its path.
pub open spec fn leaf_map(v: JsonView) -> Map<Seq<char>, Seq<char>> {
    overlay(Map::empty(), leaves(seq![], v))
}

/// What is shown of a text that may be missing.
pub open spec fn shown_if_any(hide: bool, text: Option<Seq<char>>) -> Option<Seq<char>> {
    match text {
        Some(t) => Some(shown(hide, t)),
        None => None,
    }
}

/// The change on a path whose text went from `old` to `new`.
pub open spec fn attr_row(
    path: Seq<char>,
    old: Option<Seq<char>>,
    new: Option<Seq<char>>,
) -> AttrRow {
    AttrRow {
        path,
        old: shown_if_any(sensitive(path), old),
        new: shown_if_any(sensitive(path), new),
    }
}

/// Whether rows are the difference of two flat attribute trees: a row for each path
/// whose texts differ and for no other, in ascending order of the paths, showing
/// both sides, or the marker in their place on a sensitive path.
pub open spec fn is_attr_diff(
    old: Map<Seq<char>, Seq<char>>,
    new: Map<Seq<char>, Seq<char>>,
    rows: Seq<AttrRow>,
) -> bool {
    &&& increasing(row_paths(rows))
    &&& forall|path: Seq<char>| #[trigger]
        row_paths(rows).contains(path) <==> old.get(path) != new.get(path)
    &&& forall|i: int|
        0 <= i < rows.len() ==> {
            let path = (#[trigger] rows[i]).path;
            rows[i] == attr_row(path, old.get(path), new.get(path))
        }
}

/// Two flat attribute trees have no difference exactly where they are the same.
pub proof fn no_attr_rows(
    old: Map<Seq<char>, Seq<char>>,
    new: Map<Seq<char>, Seq<char>>,
    rows: Seq<AttrRow>,
)
    requires
        is_attr_diff(old, new, rows),
    ensures
        rows.len() == 0 <==> old == new,
{
    if rows.len() == 0 {
        assert forall|p: Seq<char>| old.get(p) == new.get(p) by {
            assert(!row_paths(rows).contains(p));
        }
        assert forall|p: Seq<char>| #[trigger] old.contains_key(p) == new.contains_key(p) by {
            assert(old.get(p) == new.get(p));
        }
        assert forall|p: Seq<char>| old.contains_key(p) implies #[trigger] old[p] == new[p] by {
            assert(old.get(p) == new.get(p));
        }
        assert(old =~= new);
    } else {
        assert(row_paths(rows)[0] == rows[0].path);
        assert(row_paths(rows).contains(rows[0].path));
    }
}

/// What is shown of a text that may be missing.
fn redact_if_any(hide: bool, text: Option<&String>) -> (display: Option<String>)
    ensures
        text_of(display) == shown_if_any(
            hide,
            match text {
                Some(t) => Some(t@),
                None => None,
            },
        ),
{
    match text {
        Some(t) => Some(redact(hide, t.as_str())),
        None => None,
    }
}

/// The text that a flat tree has under a path.
fn text_at<'a>(flat: &'a SortedMap<String>, path: &str) -> (text: Option<&'a String>)
    ensures
        texts(*flat).get(path@) == match text {
            Some(t) => Some(t@),
            None => None,
        },
{
    flat.get(path)
}

/// The flat contents of an attribute tree.
fn flat_attributes(attributes: &Json) -> (flat: SortedMap<String>)
    ensures
        texts(flat) == leaf_map(attributes@),
{
    let mut flat: SortedMap<String> = SortedMap::new();
    assert(texts(flat) =~= Map::empty());
    flatten("", attributes, &mut flat);
    proof {
        reveal_strlit("");
        assert(""@ =~= seq![]);
    }
    flat
}

/// Compares two attribute trees leaf by leaf. A value on a sensitive path is never
/// part of the result: the marker stands in its place on both sides.
pub fn diff_attributes(old: &Json, new: &Json) -> (changes: Vec<AttrChange>)
    ensures
        is_attr_diff(leaf_map(old@), leaf_map(new@), attr_rows(changes@)),
{
    let old_flat = flat_attributes(old);
    let new_flat = flat_attributes(new);
    let ghost o = leaf_map(old@);
    let ghost n = leaf_map(new@);
    let paths = all_keys(&old_flat, &new_flat);
    let ghost keys = key_views(paths@);
    let mut changes: Vec<AttrChange> = Vec::new();
    let mut i: usize = 0;
    while i < paths.len()
        invariant
            i <= paths@.len(),
            keys == key_views(paths@),
            increasing(keys),
            texts(old_flat) == o,
            texts(new_flat) == n,
            forall|a: int, b: int|
                0 <= a < b < changes@.len() ==> precedes(
                    #[trigger] attr_rows(changes@)[a].path,
                    #[trigger] attr_rows(changes@)[b].path,
                ),
            forall|a: int, k: int|
                0 <= a < changes@.len() && i <= k < keys.len() ==> precedes(
                    #[trigger] attr_rows(changes@)[a].path,
                    #[trigger] keys[k],
                ),
            forall|a: int|
                0 <= a < changes@.len() ==> {
                    let path = (#[trigger] attr_rows(changes@)[a]).path;
                    &&& o.get(path) != n.get(path)
                    &&& attr_rows(changes@)[a] == attr_row(path, o.get(path), n.get(path))
                },
            forall|k: int|
                0 <= k < i && o.get(#[trigger] keys[k]) != n.get(keys[k]) ==> exists|a: int|
                    0 <= a < changes@.len() && (#[trigger] attr_rows(changes@)[a]).path == keys[k],
        decreases paths@.len() - i,
    {
        let ghost had = attr_rows(changes@);
        let path = &paths[i];
        assert(keys[i as int] == path@);
        let old_text = text_at(&old_flat, path.as_str());
        let new_text = text_at(&new_flat, path.as_str());
        let unchanged = match (old_text, new_text) {
            (Some(a), Some(b)) => *a == *b,
            (None, None) => true,
            _ => false,
        };
        if !unchanged {
            let hide = is_sensitive_path(path.as_str());
            changes.push(
                AttrChange {
                    path: path.clone(),
                    old: redact_if_any(hide, old_text),
                    new: redact_if_any(hide, new_text),
                },
            );
            assert(attr_rows(changes@) =~= had.push(
                attr_row(path@, o.get(path@), n.get(path@)),
            ));
        }
        i = i + 1;
        proof {
            let now = attr_rows(changes@);
            assert forall|k: int|
                0 <= k < i && o.get(#[trigger] keys[k]) != n.get(keys[k]) implies exists|a: int|
                0 <= a < now.len() && (#[trigger] now[a]).path == keys[k] by {
                if k < i - 1 {
                    let a = choose|a: int|
                        0 <= a < had.len() && (#[trigger] had[a]).path == keys[k];
                    assert(now[a] == had[a]);
                } else {
                    assert(now[had.len() as int].path == keys[k]);
                }
            }
        }
    }
    proof {
        let rows = attr_rows(changes@);
        let own = row_paths(rows);
        assert forall|a: int, b: int| 0 <= a < b < own.len() implies precedes(
            #[trigger] own[a],
            #[trigger] own[b],
        ) by {
            assert(precedes(rows[a].path, rows[b].path));
        }
        assert forall|path: Seq<char>| #[trigger] own.contains(path) <==> o.get(path) != n.get(
            path,
        ) by {
            if own.contains(path) {
                let a = choose|a: int| 0 <= a < own.len() && own[a] == path;
                assert(rows[a].path == path);
            }
            if o.get(path) != n.get(path) {
                assert(old_flat@.contains_key(path) || new_flat@.contains_key(path));
                assert(keys.contains(path));
                let k = choose|k: int| 0 <= k < keys.len() && keys[k] == path;
                let a = choose|a: int| 0 <= a < rows.len() && (#[trigger] rows[a]).path == keys[k];
                assert(own[a] == path);
            }
        }
    }
    changes
}

} // verus!
