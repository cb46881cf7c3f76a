//! When two JSON values are equal.
use vstd::prelude::*;

use crate::json::compact_text;
use crate::json::json_text;
use crate::json::number_text;
use crate::json::same;
use crate::laws::same_reflexive;
use crate::text::signed_decimal;
use crate::value::JsonView;
use crate::value::NumView;

verus! {

/// Whether every number in a value is an integer.
pub open spec fn whole_numbers_only(v: JsonView) -> bool
    decreases v,
{
    match v {
        JsonView::Num(n) => n is Int,
        JsonView::Array(items) => forall|i: int|
            0 <= i < items.len() ==> whole_numbers_only(#[trigger] items[i]),
        JsonView::Object(members) => forall|i: int|
            0 <= i < members.len() ==> whole_numbers_only((#[trigger] members[i]).1),
        _ => true,
    }
}

/// Values without fractional numbers are equal exactly where they are the same value.
pub proof fn equality_is_identity(a: JsonView, b: JsonView)
    requires
        whole_numbers_only(a),
        whole_numbers_only(b),
    ensures
        same(a, b) <==> a == b,
    decreases a,
{
    if a == b {
        same_reflexive(a);
    } else if same(a, b) {
        match (a, b) {
            (JsonView::Array(x), JsonView::Array(y)) => {
                assert forall|i: int| 0 <= i < x.len() implies x[i] == y[i] by {
                    assert(same(x[i], y[i]));
                    assert(whole_numbers_only(y[i]));
                    equality_is_identity(x[i], y[i]);
                }
                assert(x =~= y);
            },
            (JsonView::Object(x), JsonView::Object(y)) => {
                assert forall|i: int| 0 <= i < x.len() implies x[i] == y[i] by {
                    assert(decreases_to!(x => x[i]));
                    assert(decreases_to!(x[i] => x[i].1));
                    assert(x[i].0 == y[i].0 && same(x[i].1, y[i].1));
                    assert(whole_numbers_only(y[i].1));
                    equality_is_identity(x[i].1, y[i].1);
                }
                assert(x =~= y);
            },
            _ => {},
        }
    }
}

/// Two arrays are equal exactly where they are of one length and equal item by item.
pub proof fn arrays_are_equal_item_by_item(x: Seq<JsonView>, y: Seq<JsonView>)
    ensures
        same(JsonView::Array(x), JsonView::Array(y)) <==> x.len() == y.len() && forall|i: int|
            0 <= i < x.len() ==> same(#[trigger] x[i], y[i]),
{
}

/// Two objects are equal exactly where they have the same keys with equal values.
pub proof fn objects_are_equal_member_by_member(
    x: Seq<(Seq<char>, JsonView)>,
    y: Seq<(Seq<char>, JsonView)>,
)
    ensures
        same(JsonView::Object(x), JsonView::Object(y)) <==> x.len() == y.len() && forall|i: int|
            0 <= i < x.len() ==> (#[trigger] x[i]).0 == y[i].0 && same(x[i].1, y[i].1),
{
}

/// Scalars are equal exactly where they are the same, but for numbers that are not
/// integers: these are equal where their values are, however they are written.
pub proof fn scalars_are_equal_by_value(
    s: Seq<char>,
    t: Seq<char>,
    p: bool,
    q: bool,
    m: NumView,
    n: NumView,
)
    ensures
        same(JsonView::Null, JsonView::Null),
        same(JsonView::Bool(p), JsonView::Bool(q)) <==> p == q,
        same(JsonView::String(s), JsonView::String(t)) <==> s == t,
        m is Int || n is Int ==> (same(JsonView::Num(m), JsonView::Num(n)) <==> m == n),
        m is Float && n is Float ==> (same(JsonView::Num(m), JsonView::Num(n)) <==> m->value
            == n->value),
{
}

/// Values of different kinds are never equal.
pub proof fn kinds_are_never_equal(a: JsonView, b: JsonView)
    requires
        same(a, b),
    ensures
        a is Null <==> b is Null,
        a is Bool <==> b is Bool,
        a is Num <==> b is Num,
        a is String <==> b is String,
        a is Array <==> b is Array,
        a is Object <==> b is Object,
{
}

/// How scalars are written as JSON: the words `null`, `true` and `false`, an integer as
/// its numeral, and any other number with a digit in front, behind a minus sign where it
/// has one. Strings, arrays and objects are written as the JSON library writes them.
pub proof fn json_texts(v: JsonView, i: int, value: int, first: nat, rest: Seq<char>)
    ensures
        json_text(JsonView::Null) == "null"@,
        json_text(JsonView::Bool(true)) == "true"@,
        json_text(JsonView::Bool(false)) == "false"@,
        json_text(JsonView::Num(NumView::Int(i))) == signed_decimal(i),
        first < 10 ==> json_text(
            JsonView::Num(NumView::Float { value, negative: false, first, rest }),
        ) == seq![(48 + first) as char] + rest,
        first < 10 ==> json_text(
            JsonView::Num(NumView::Float { value, negative: true, first, rest }),
        ) == seq!['-', (48 + first) as char] + rest,
        v matches JsonView::Num(n) ==> json_text(v) == number_text(n),
        v is String || v is Array || v is Object ==> json_text(v) == compact_text(v),
{
}

} // verus!
