//! Which outputs changed.
use vstd::prelude::*;

use crate::diff::attributes::text_of;
use crate::json::display;
use crate::json::json_text;
use crate::json::same;
use crate::json::values_equal;
use crate::map::SortedMap;
use crate::map::all_keys;
use crate::map::increasing;
use crate::map::key_views;
use crate::sensitive::REDACTED;
use crate::sensitive::shown;
use crate::state::OutputValue;
use crate::state::OutputView;
use crate::state::output_views;
use crate::text::precedes;
use crate::value::Json;
use crate::value::JsonView;

verus! {

/// A changed output: its name, and what is shown of it on either side, where it is
/// there.
#[derive(Debug, Clone)]
pub struct OutputDiff {
    pub name: String,
    pub old: Option<String>,
    pub new: Option<String>,
}

/// What an [`OutputDiff`] says.
pub struct OutputRow {
    pub name: Seq<char>,
    pub old: Option<Seq<char>>,
    pub new: Option<Seq<char>>,
}

impl View for OutputDiff {
    type V = OutputRow;

    open spec fn view(&self) -> OutputRow {
        OutputRow { name: self.name@, old: text_of(self.old), new: text_of(self.new) }
    }
}

/// What a list of changed outputs says.
pub open spec fn output_rows(diffs: Seq<OutputDiff>) -> Seq<OutputRow> {
    diffs.map_values(|d: OutputDiff| d@)
}

/// The names of the rows of an output difference, in order.
pub open spec fn row_names(rows: Seq<OutputRow>) -> Seq<Seq<char>> {
    rows.map_values(|r: OutputRow| r.name)
}

/// The text of a value: a string as it is, any other value as JSON.
pub open spec fn value_text(v: JsonView) -> Seq<char> {
    match v {
        JsonView::String(s) => s,
        _ => json_text(v),
    }
}

/// What is shown of an output.
pub open spec fn output_text(output: OutputView) -> Seq<char> {
    shown(output.sensitive, value_text(output.value))
}

/// What is shown of an output that may be missing.
pub open spec fn output_text_if_any(output: Option<OutputView>) -> Option<Seq<char>> {
    match output {
        Some(o) => Some(output_text(o)),
        None => None,
    }
}

/// Whether an output differs: it is on one side only, its values differ, or it is
/// marked as sensitive on one side only. What is shown of it plays no part.
pub open spec fn output_differs(old: Option<OutputView>, new: Option<OutputView>) -> bool {
    match (old, new) {
        (Some(o), Some(n)) => !same(o.value, n.value) || o.sensitive != n.sensitive,
        (None, None) => false,
        _ => true,
    }
}

/// The change of an output.
pub open spec fn output_row(
    name: Seq<char>,
    old: Option<OutputView>,
    new: Option<OutputView>,
) -> OutputRow {
    OutputRow { name, old: output_text_if_any(old), new: output_text_if_any(new) }
}

/// Whether rows are the difference of two sets of outputs: a row for each name whose
/// outputs differ and for no other, in ascending order of the names, showing both
/// sides, or the marker in place of a sensitive output.
pub open spec fn is_output_diff(
    old: Map<Seq<char>, OutputView>,
    new: Map<Seq<char>, OutputView>,
    rows: Seq<OutputRow>,
) -> bool {
    &&& increasing(row_names(rows))
    &&& forall|name: Seq<char>| #[trigger]
        row_names(rows).contains(name) <==> output_differs(old.get(name), new.get(name))
    &&& forall|i: int|
        0 <= i < rows.len() ==> {
            let name = (#[trigger] rows[i]).name;
            rows[i] == output_row(name, old.get(name), new.get(name))
        }
}

/// What is shown of an output.
pub fn render_output(output: &OutputValue) -> (display_text: String)
    ensures
        display_text@ == output_text(output@),
{
    if output.sensitive {
        REDACTED.to_owned()
    } else {
        match &output.value {
            Json::String(s) => s.clone(),
            other => display(other),
        }
    }
}

/// What is shown of an output that may be missing.
fn render_if_any(output: Option<&OutputValue>) -> (display_text: Option<String>)
    ensures
        text_of(display_text) == output_text_if_any(
            match output {
                Some(o) => Some(o@),
                None => None,
            },
        ),
{
    match output {
        Some(o) => Some(render_output(o)),
        None => None,
    }
}

/// Finds the outputs that came, went or changed. Values are compared as they are,
/// not as they are shown, so a change of a sensitive output is found although both
/// its sides show the same marker.
pub fn diff_outputs(old: &SortedMap<OutputValue>, new: &SortedMap<OutputValue>) -> (diffs: Vec<
    OutputDiff,
>)
    ensures
        is_output_diff(output_views(*old), output_views(*new), output_rows(diffs@)),
{
    let ghost o = output_views(*old);
    let ghost n = output_views(*new);
    let names = all_keys(old, new);
    let ghost keys = key_views(names@);
    let mut diffs: Vec<OutputDiff> = Vec::new();
    let mut i: usize = 0;
    while i < names.len()
        invariant
            i <= names@.len(),
            keys == key_views(names@),
            increasing(keys),
            o == output_views(*old),
            n == output_views(*new),
            forall|a: int, b: int|
                0 <= a < b < diffs@.len() ==> precedes(
                    #[trigger] output_rows(diffs@)[a].name,
                    #[trigger] output_rows(diffs@)[b].name,
                ),
            forall|a: int, k: int|
                0 <= a < diffs@.len() && i <= k < keys.len() ==> precedes(
                    #[trigger] output_rows(diffs@)[a].name,
                    #[trigger] keys[k],
                ),
            forall|a: int|
                0 <= a < diffs@.len() ==> {
                    let name = (#[trigger] output_rows(diffs@)[a]).name;
                    &&& output_differs(o.get(name), n.get(name))
                    &&& output_rows(diffs@)[a] == output_row(name, o.get(name), n.get(name))
                },
            forall|k: int|
                0 <= k < i && output_differs(o.get(#[trigger] keys[k]), n.get(keys[k]))
                    ==> exists|a: int|
                    0 <= a < diffs@.len() && (#[trigger] output_rows(diffs@)[a]).name == keys[k],
        decreases names@.len() - i,
    {
        let ghost had = output_rows(diffs@);
        let name = &names[i];
        assert(keys[i as int] == name@);
        let old_output = old.get(name.as_str());
        let new_output = new.get(name.as_str());
        assert(o.get(name@) == match old_output {
            Some(x) => Some(x@),
            None => None,
        });
        assert(n.get(name@) == match new_output {
            Some(x) => Some(x@),
            None => None,
        });
        let unchanged = match (old_output, new_output) {
            (Some(a), Some(b)) => values_equal(&a.value, &b.value) && a.sensitive == b.sensitive,
            (None, None) => true,
            _ => false,
        };
        if !unchanged {
            let diff = OutputDiff {
                name: name.clone(),
                old: render_if_any(old_output),
                new: render_if_any(new_output),
            };
            diffs.push(diff);
            assert(output_rows(diffs@) =~= had.push(
                output_row(name@, o.get(name@), n.get(name@)),
            ));
        }
        i = i + 1;
        proof {
            let now = output_rows(diffs@);
            assert forall|k: int|
                0 <= k < i && output_differs(
                    o.get(#[trigger] keys[k]),
                    n.get(keys[k]),
                ) implies exists|a: int|
                0 <= a < now.len() && (#[trigger] now[a]).name == keys[k] by {
                if k < i - 1 {
                    let a = choose|a: int|
                        0 <= a < had.len() && (#[trigger] had[a]).name == keys[k];
                    assert(now[a] == had[a]);
                } else {
                    assert(now[had.len() as int].name == keys[k]);
                }
            }
        }
    }
    proof {
        let rows = output_rows(diffs@);
        let own = row_names(rows);
        assert forall|a: int, b: int| 0 <= a < b < own.len() implies precedes(
            #[trigger] own[a],
            #[trigger] own[b],
        ) by {
            assert(precedes(rows[a].name, rows[b].name));
        }
        assert forall|name: Seq<char>| #[trigger] own.contains(name) <==> output_differs(
            o.get(name),
            n.get(name),
        ) by {
            if own.contains(name) {
                let a = choose|a: int| 0 <= a < own.len() && own[a] == name;
                assert(rows[a].name == name);
            }
            if output_differs(o.get(name), n.get(name)) {
                assert(old@.contains_key(name) || new@.contains_key(name));
                assert(keys.contains(name));
                let k = choose|k: int| 0 <= k < keys.len() && keys[k] == name;
                let a = choose|a: int| 0 <= a < rows.len() && (#[trigger] rows[a]).name == keys[k];
                assert(own[a] == name);
            }
        }
    }
    diffs
}

} // verus!
