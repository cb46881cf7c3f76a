//! The boundary to `serde_json`: how its values are made, taken apart, compared and
//! written out.
use vstd::prelude::*;

use crate::map::SortedMap;
use crate::map::ascending;
use crate::map::put_last;
use crate::text::digit;
use crate::text::precedes;
use crate::text::signed_decimal;
use crate::value::Json;
use crate::value::JsonView;
use crate::value::Num;
use crate::value::NumView;

verus! {

/// `serde_json::Value`, seen through [`holds`] only.
#[verifier::external_type_specification]
#[verifier::external_body]
pub struct ExJsonValue(serde_json::Value);

/// `serde_json::Number`, seen through [`number_model`] only.
#[verifier::external_type_specification]
#[verifier::external_body]
pub struct ExJsonNumber(serde_json::Number);

/// The JSON value that a `serde_json::Value` holds.
pub uninterp spec fn holds(v: serde_json::Value) -> JsonView;

/// The JSON number that a `serde_json::Number` holds. Two numbers that are not
/// integers have the same value here exactly where `serde_json` takes them for
/// equal; the sign, the first digit and the rest are those that it writes.
pub uninterp spec fn number_model(n: serde_json::Number) -> NumView;

/// What a list of `serde_json::Value`s holds.
pub open spec fn items_hold(items: Seq<serde_json::Value>) -> Seq<JsonView> {
    items.map_values(|item: serde_json::Value| holds(item))
}

/// What a list of keys with `serde_json::Value`s holds.
pub open spec fn members_hold(members: Seq<(String, serde_json::Value)>) -> Seq<
    (Seq<char>, JsonView),
> {
    members.map_values(|m: (String, serde_json::Value)| (m.0@, holds(m.1)))
}

/// The compact JSON text that `serde_json` writes for a string, an array or an
/// object.
pub uninterp spec fn compact_text(v: JsonView) -> Seq<char>;

/// The text of a JSON number: the decimal numeral of an integer, and of any other
/// number its minus sign where it has one, a digit, and the rest.
pub open spec fn number_text(n: NumView) -> Seq<char> {
    match n {
        NumView::Int(i) => signed_decimal(i),
        NumView::Float { negative: true, first, rest, .. } => seq!['-', digit(first % 10)] + rest,
        NumView::Float { negative: false, first, rest, .. } => seq![digit(first % 10)] + rest,
    }
}

/// The JSON text of a value.
pub open spec fn json_text(v: JsonView) -> Seq<char> {
    match v {
        JsonView::Null => "null"@,
        JsonView::Bool(true) => "true"@,
        JsonView::Bool(false) => "false"@,
        JsonView::Num(n) => number_text(n),
        _ => compact_text(v),
    }
}

/// Whether two JSON numbers are equal: integers by their value, other numbers by
/// theirs, and an integer never equals another number.
pub open spec fn same_number(a: NumView, b: NumView) -> bool {
    match (a, b) {
        (NumView::Int(x), NumView::Int(y)) => x == y,
        (NumView::Float { value: x, .. }, NumView::Float { value: y, .. }) => x == y,
        _ => false,
    }
}

/// Whether two JSON values are equal.
pub open spec fn same(a: JsonView, b: JsonView) -> bool
    decreases a,
{
    match (a, b) {
        (JsonView::Null, JsonView::Null) => true,
        (JsonView::Bool(x), JsonView::Bool(y)) => x == y,
        (JsonView::Num(x), JsonView::Num(y)) => same_number(x, y),
        (JsonView::String(x), JsonView::String(y)) => x == y,
        (JsonView::Array(x), JsonView::Array(y)) => {
            &&& x.len() == y.len()
            &&& forall|i: int| 0 <= i < x.len() ==> same(#[trigger] x[i], y[i])
        },
        (JsonView::Object(x), JsonView::Object(y)) => {
            &&& x.len() == y.len()
            &&& forall|i: int|
                0 <= i < x.len() ==> (#[trigger] x[i]).0 == y[i].0 && same(x[i].1, y[i].1)
        },
        _ => false,
    }
}

/// `serde_json::Number::from` on an unsigned integer holds that integer.
#[verifier::external_body]
fn number_from_u64(n: u64) -> (number: serde_json::Number)
    ensures
        number_model(number) == NumView::Int(n as int),
{
    serde_json::Number::from(n)
}

/// `serde_json::Number::from` on a signed integer holds that integer.
#[verifier::external_body]
fn number_from_i64(n: i64) -> (number: serde_json::Number)
    ensures
        number_model(number) == NumView::Int(n as int),
{
    serde_json::Number::from(n)
}

/// `serde_json::Number::clone` holds the same number.
#[verifier::external_body]
fn number_clone(n: &serde_json::Number) -> (number: serde_json::Number)
    ensures
        number_model(number) == number_model(*n),
{
    n.clone()
}

/// `serde_json::Number::to_string` writes an integer as its decimal numeral, and
/// any other number with a digit in front, or with a minus sign and a digit, followed
/// by what [`number_model`] has as the rest.
#[verifier::external_body]
fn number_to_string(n: &serde_json::Number) -> (text: String)
    ensures
        text@ == number_text(number_model(*n)),
{
    n.to_string()
}

/// `serde_json::Value::Null` holds null.
#[verifier::external_body]
fn json_null() -> (v: serde_json::Value)
    ensures
        holds(v) == JsonView::Null,
{
    serde_json::Value::Null
}

/// `serde_json::Value::Bool` holds the boolean.
#[verifier::external_body]
fn json_bool(b: bool) -> (v: serde_json::Value)
    ensures
        holds(v) == JsonView::Bool(b),
{
    serde_json::Value::Bool(b)
}

/// `serde_json::Value::Number` holds the number.
#[verifier::external_body]
fn json_number(n: serde_json::Number) -> (v: serde_json::Value)
    ensures
        holds(v) == JsonView::Num(number_model(n)),
{
    serde_json::Value::Number(n)
}

/// `serde_json::Value::String` holds the text.
#[verifier::external_body]
fn json_string(s: String) -> (v: serde_json::Value)
    ensures
        holds(v) == JsonView::String(s@),
{
    serde_json::Value::String(s)
}

/// `serde_json::Value::Array` holds the items in their order.
#[verifier::external_body]
fn json_array(items: Vec<serde_json::Value>) -> (v: serde_json::Value)
    ensures
        holds(v) == JsonView::Array(items_hold(items@)),
{
    serde_json::Value::Array(items)
}

/// `serde_json::Map::from_iter` on members in strictly ascending order of their
/// keys holds exactly these members, in this order.
#[verifier::external_body]
fn json_object(members: Vec<(String, serde_json::Value)>) -> (v: serde_json::Value)
    requires
        ascending(members_hold(members@)),
    ensures
        holds(v) == JsonView::Object(members_hold(members@)),
{
    serde_json::Value::Object(serde_json::Map::from_iter(members))
}

/// `serde_json::Value::to_string` writes the compact JSON text of the value: the
/// words `null`, `true` and `false`, a number as [`number_text`] has it, and any
/// other value as a text that depends on nothing but the value and goes by the
/// name [`compact_text`].
#[verifier::external_body]
fn json_to_string(v: &serde_json::Value) -> (text: String)
    ensures
        holds(*v) is Null ==> text@ == "null"@,
        holds(*v) == JsonView::Bool(true) ==> text@ == "true"@,
        holds(*v) == JsonView::Bool(false) ==> text@ == "false"@,
        holds(*v) matches JsonView::Num(n) ==> text@ == number_text(n),
        holds(*v) is String || holds(*v) is Array || holds(*v) is Object ==> text@ == compact_text(
            holds(*v),
        ),
{
    v.to_string()
}

/// `==` on two `serde_json::Value`s goes by their kinds and contents: arrays item
/// by item, objects member by member, numbers as [`same_number`] has it.
#[verifier::external_body]
fn json_eq(a: &serde_json::Value, b: &serde_json::Value) -> (equal: bool)
    ensures
        equal == same(holds(*a), holds(*b)),
{
    a == b
}

/// A `serde_json::Value` taken apart.
enum Node {
    Null,
    Bool(bool),
    Num(serde_json::Number),
    String(String),
    Array(Vec<serde_json::Value>),
    Object(Vec<(String, serde_json::Value)>),
}

/// Takes a `serde_json::Value` apart: each variant of it holds what its field holds,
/// and `serde_json::Map::into_iter` gives the members of an object in strictly
/// ascending order of their keys.
#[verifier::external_body]
fn json_open(v: serde_json::Value) -> (node: Node)
    ensures
        holds(v) == match node {
            Node::Null => JsonView::Null,
            Node::Bool(b) => JsonView::Bool(b),
            Node::Num(n) => JsonView::Num(number_model(n)),
            Node::String(s) => JsonView::String(s@),
            Node::Array(items) => JsonView::Array(items_hold(items@)),
            Node::Object(members) => JsonView::Object(members_hold(members@)),
        },
        node matches Node::Object(members) ==> ascending(members_hold(members@)),
{
    match v {
        serde_json::Value::Null => Node::Null,
        serde_json::Value::Bool(b) => Node::Bool(b),
        serde_json::Value::Number(n) => Node::Num(n),
        serde_json::Value::String(s) => Node::String(s),
        serde_json::Value::Array(items) => Node::Array(items),
        serde_json::Value::Object(map) => Node::Object(map.into_iter().collect()),
    }
}

/// `serde_json::Number::as_u64` gives the integer where there is one and it fits.
#[verifier::external_body]
fn number_as_u64(n: &serde_json::Number) -> (integer: Option<u64>)
    ensures
        integer == match number_model(*n) {
            NumView::Int(i) if 0 <= i <= u64::MAX => Some(i as u64),
            _ => None,
        },
{
    n.as_u64()
}

/// `serde_json::Number::as_i64` gives the integer where there is one and it fits.
#[verifier::external_body]
fn number_as_i64(n: &serde_json::Number) -> (integer: Option<i64>)
    ensures
        integer == match number_model(*n) {
            NumView::Int(i) if i64::MIN <= i <= i64::MAX => Some(i as i64),
            _ => None,
        },
{
    n.as_i64()
}

/// The number that a number of the JSON library holds.
fn from_json_number(n: serde_json::Number) -> (number: Num)
    ensures
        number@ == number_model(n),
{
    match (number_as_u64(&n), number_as_i64(&n)) {
        (Some(u), _) => Num::PosInt(u),
        (None, Some(i)) => Num::NegInt(i),
        (None, None) => Num::Float(n),
    }
}

/// The value that a value of the JSON library holds.
pub fn from_json(v: serde_json::Value) -> (value: Json)
    ensures
        value@ == holds(v),
    decreases holds(v),
{
    let ghost model = holds(v);
    match json_open(v) {
        Node::Null => Json::Null,
        Node::Bool(b) => Json::Bool(b),
        Node::Num(n) => Json::Num(from_json_number(n)),
        Node::String(s) => Json::String(s),
        Node::Array(items) => {
            let ghost models = items_hold(items@);
            let mut made: Vec<Json> = Vec::new();
            for item in it: items
                invariant
                    it.seq() == items@,
                    models == items_hold(items@),
                    model == JsonView::Array(models),
                    holds(v) == model,
                    made@.len() == it.index(),
                    forall|k: int| 0 <= k < made@.len() ==> (#[trigger] made@[k])@ == models[k],
            {
                proof {
                    let k = it.index() as int;
                    assert(decreases_to!(model => model->Array_0));
                    assert(decreases_to!(models => models[k]));
                    assert(models[k] == holds(item));
                }
                made.push(from_json(item));
            }
            let value = Json::Array(made);
            assert(value@->Array_0 =~= models);
            value
        },
        Node::Object(members) => {
            let ghost models = members_hold(members@);
            let mut made: SortedMap<Json> = SortedMap::new();
            for member in it: members
                invariant
                    it.seq() == members@,
                    models == members_hold(members@),
                    model == JsonView::Object(models),
                    holds(v) == model,
                    ascending(models),
                    made.members().len() == it.index(),
                    forall|k: int|
                        0 <= k < made.members().len() ==> (
                            (#[trigger] made.members()[k]).0,
                            made.members()[k].1@,
                        ) == models[k],
            {
                let ghost had = made.members();
                let ghost i = it.index() as int;
                let (key, item) = member;
                proof {
                    assert(decreases_to!(model => model->Object_0));
                    assert(decreases_to!(models => models[i]));
                    assert(decreases_to!(models[i] => models[i].1));
                    assert(models[i] == (key@, holds(item)));
                }
                let ghost key_text = key@;
                let made_item = from_json(item);
                proof {
                    assert forall|a: int, b: int| 0 <= a < b < had.len() implies precedes(
                        #[trigger] had[a].0,
                        #[trigger] had[b].0,
                    ) by {
                        assert(precedes(models[a].0, models[b].0));
                    }
                    assert forall|k: int| 0 <= k < had.len() implies precedes(
                        #[trigger] had[k].0,
                        key_text,
                    ) by {
                        assert(precedes(models[k].0, models[i].0));
                    }
                    put_last(had, key_text, made_item);
                }
                made.insert(key, made_item);
            }
            let value = Json::Object(made);
            assert(value@->Object_0 =~= models);
            value
        },
    }
}

/// A number in the form of the JSON library.
fn to_json_number(n: &Num) -> (number: serde_json::Number)
    ensures
        number_model(number) == n@,
{
    match n {
        Num::PosInt(n) => number_from_u64(*n),
        Num::NegInt(n) => number_from_i64(*n),
        Num::Float(n) => number_clone(n),
    }
}

/// A value in the form of the JSON library.
fn to_json(value: &Json) -> (v: serde_json::Value)
    ensures
        holds(v) == value@,
    decreases value@,
{
    match value {
        Json::Null => json_null(),
        Json::Bool(b) => json_bool(*b),
        Json::Num(n) => json_number(to_json_number(n)),
        Json::String(s) => json_string(s.clone()),
        Json::Array(items) => {
            let ghost models = value@->Array_0;
            let mut made: Vec<serde_json::Value> = Vec::new();
            let mut i: usize = 0;
            while i < items.len()
                invariant
                    i <= items@.len(),
                    made@.len() == i,
                    models.len() == items@.len(),
                    value@ == JsonView::Array(models),
                    forall|k: int| 0 <= k < items@.len() ==> #[trigger] models[k] == items@[k]@,
                    forall|k: int| 0 <= k < i ==> holds(#[trigger] made@[k]) == models[k],
                decreases items@.len() - i,
            {
                assert(decreases_to!(value@ => value@->Array_0));
                assert(decreases_to!(models => models[i as int]));
                assert(models[i as int] == items@[i as int]@);
                made.push(to_json(&items[i]));
                i = i + 1;
            }
            let v = json_array(made);
            assert(holds(v)->Array_0 =~= models);
            v
        },
        Json::Object(map) => {
            let ghost models = value@->Object_0;
            let mut made: Vec<(String, serde_json::Value)> = Vec::new();
            let mut i: usize = 0;
            let n = map.len();
            while i < n
                invariant
                    i <= n,
                    n == map.members().len(),
                    made@.len() == i,
                    models.len() == n,
                    value@ == JsonView::Object(models),
                    forall|k: int|
                        0 <= k < n ==> #[trigger] models[k] == (
                            map.members()[k].0,
                            map.members()[k].1@,
                        ),
                    forall|k: int|
                        0 <= k < i ==> (#[trigger] made@[k]).0@ == models[k].0 && holds(made@[k].1)
                            == models[k].1,
                decreases n - i,
            {
                let (key, item) = map.entry(i);
                assert(decreases_to!(value@ => value@->Object_0));
                assert(decreases_to!(models => models[i as int]));
                assert(decreases_to!(models[i as int] => models[i as int].1));
                assert(models[i as int].1 == item@);
                made.push((key.clone(), to_json(item)));
                i = i + 1;
            }
            assert(members_hold(made@) =~= models);
            assert(ascending(models)) by {
                assert forall|a: int, b: int| 0 <= a < b < models.len() implies precedes(
                    #[trigger] models[a].0,
                    #[trigger] models[b].0,
                ) by {
                    assert(precedes(map.members()[a].0, map.members()[b].0));
                }
            }
            json_object(made)
        },
    }
}

/// The text of a number.
pub fn number_display(n: &Num) -> (text: String)
    ensures
        text@ == number_text(n@),
{
    number_to_string(&to_json_number(n))
}

/// The JSON text of a value.
pub fn display(value: &Json) -> (text: String)
    ensures
        text@ == json_text(value@),
{
    json_to_string(&to_json(value))
}

/// Whether two values are equal.
pub fn values_equal(a: &Json, b: &Json) -> (equal: bool)
    ensures
        equal == same(a@, b@),
{
    json_eq(&to_json(a), &to_json(b))
}

} // verus!
