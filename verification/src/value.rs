//! JSON values: the type that states are made of, and its mathematical model.
use vstd::prelude::*;

use crate::json::number_model;
use crate::map::SortedMap;
use crate::map::values_are_smaller;

verus! {

/// What a JSON number is.
pub enum NumView {
    Int(int),
    /// A number that is not an integer: its value, and how it is written: behind a
    /// minus sign or not, its first digit, and the rest.
    Float { value: int, negative: bool, first: nat, rest: Seq<char> },
}

/// What a JSON value is. The members of an object come in ascending order of
/// their keys.
pub enum JsonView {
    Null,
    Bool(bool),
    Num(NumView),
    String(Seq<char>),
    Array(Seq<JsonView>),
    Object(Seq<(Seq<char>, JsonView)>),
}

/// A JSON number. Integers are held as they are; any other number as the JSON
/// library holds it.
#[derive(Debug)]
pub enum Num {
    PosInt(u64),
    NegInt(i64),
    Float(serde_json::Number),
}

impl View for Num {
    type V = NumView;

    open spec fn view(&self) -> NumView {
        match *self {
            Num::PosInt(n) => NumView::Int(n as int),
            Num::NegInt(n) => NumView::Int(n as int),
            Num::Float(n) => number_model(n),
        }
    }
}

/// A JSON value.
#[derive(Debug)]
pub enum Json {
    Null,
    Bool(bool),
    Num(Num),
    String(String),
    Array(Vec<Json>),
    Object(SortedMap<Json>),
}

/// The JSON value that a [`Json`] stands for.
pub open spec fn json_of(v: Json) -> JsonView
    decreases v,
{
    match v {
        Json::Null => JsonView::Null,
        Json::Bool(b) => JsonView::Bool(b),
        Json::Num(n) => JsonView::Num(n@),
        Json::String(s) => JsonView::String(s@),
        Json::Array(items) => JsonView::Array(
            Seq::new(
                items@.len(),
                |i: int| if 0 <= i < items@.len() { json_of(items@[i]) } else { JsonView::Null },
            ),
        ),
        Json::Object(map) => {
            proof {
                values_are_smaller(map);
            }
            JsonView::Object(
                Seq::new(
                    map.members().len(),
                    |i: int|
                        if 0 <= i < map.members().len() {
                            (map.members()[i].0, json_of(map.members()[i].1))
                        } else {
                            (seq![], JsonView::Null)
                        },
                ),
            )
        },
    }
}

impl View for Json {
    type V = JsonView;

    open spec fn view(&self) -> JsonView {
        json_of(*self)
    }
}

} // verus!
