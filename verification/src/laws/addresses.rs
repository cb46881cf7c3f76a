//! What holds of resource addresses.
use vstd::prelude::*;

use crate::json::number_text;
use crate::laws::paths::decimal_holds_digits;
use crate::state::ResourceView;
use crate::state::address;
use crate::state::index_suffix;
use crate::text::decimal;
use crate::text::digit;
use crate::text::signed_decimal;
use crate::value::JsonView;
use crate::value::NumView;

verus! {

/// Different numbers have different decimal numerals.
pub proof fn decimal_injective(a: nat, b: nat)
    requires
        decimal(a) == decimal(b),
    ensures
        a == b,
    decreases a,
{
    assert(decimal(a).last() == digit(a % 10));
    assert(decimal(b).last() == digit(b % 10));
    assert(a % 10 == b % 10);
    decimal_holds_digits(a / 10);
    decimal_holds_digits(b / 10);
    if a >= 10 && b >= 10 {
        assert(decimal(a).drop_last() =~= decimal(a / 10));
        assert(decimal(b).drop_last() =~= decimal(b / 10));
        decimal_injective(a / 10, b / 10);
    }
}

/// Different integers have different decimal numerals.
pub proof fn signed_decimal_injective(a: int, b: int)
    requires
        signed_decimal(a) == signed_decimal(b),
    ensures
        a == b,
{
    if a < 0 {
        assert(signed_decimal(a)[0] == '-');
    } else {
        decimal_holds_digits(a as nat);
    }
    if b < 0 {
        assert(signed_decimal(b)[0] == '-');
    } else {
        decimal_holds_digits(b as nat);
    }
    if a < 0 && b < 0 {
        let x = decimal((-a) as nat);
        let y = decimal((-b) as nat);
        assert(x =~= (seq!['-'] + x).drop_first());
        assert(y =~= (seq!['-'] + y).drop_first());
        decimal_injective((-a) as nat, (-b) as nat);
    } else if a >= 0 && b >= 0 {
        decimal_injective(a as nat, b as nat);
    }
}

/// An instance with a text as its key, one with another text, one with a number and
/// one without a key have four different addresses, whatever the texts and the number
/// are: the instance with key `2` is not the one with key `"2"`.
pub proof fn kinds_of_keys_have_own_addresses(
    resource: ResourceView,
    s: Seq<char>,
    t: Seq<char>,
    n: NumView,
)
    requires
        s != t,
    ensures
        ({
            let by_s = address(resource, Some(JsonView::String(s)));
            let by_t = address(resource, Some(JsonView::String(t)));
            let by_n = address(resource, Some(JsonView::Num(n)));
            let plain = address(resource, None);
            &&& by_s != by_t
            &&& by_s != by_n
            &&& by_t != by_n
            &&& by_s != plain
            &&& by_t != plain
            &&& by_n != plain
        }),
{
    number_starts_without_quote(n);
    let by_s = index_suffix(Some(JsonView::String(s)));
    let by_t = index_suffix(Some(JsonView::String(t)));
    let by_n = index_suffix(Some(JsonView::Num(n)));
    assert(by_s[1] == '"' && by_t[1] == '"');
    assert(by_n[1] == number_text(n)[0]);
    if by_s == by_t {
        assert(s =~= by_s.subrange(2, by_s.len() - 2));
        assert(t =~= by_t.subrange(2, by_t.len() - 2));
    }
    suffixes_tell_addresses_apart(
        resource,
        Some(JsonView::String(s)),
        Some(JsonView::String(t)),
    );
    suffixes_tell_addresses_apart(resource, Some(JsonView::String(s)), Some(JsonView::Num(n)));
    suffixes_tell_addresses_apart(resource, Some(JsonView::String(t)), Some(JsonView::Num(n)));
    suffixes_tell_addresses_apart(resource, Some(JsonView::String(s)), None);
    suffixes_tell_addresses_apart(resource, Some(JsonView::String(t)), None);
    suffixes_tell_addresses_apart(resource, Some(JsonView::Num(n)), None);
}

/// Instances with different integers as their keys have different addresses.
pub proof fn integer_keys_have_own_addresses(resource: ResourceView, i: int, j: int)
    requires
        i != j,
    ensures
        address(resource, Some(JsonView::Num(NumView::Int(i)))) != address(
            resource,
            Some(JsonView::Num(NumView::Int(j))),
        ),
{
    let a = Some(JsonView::Num(NumView::Int(i)));
    let b = Some(JsonView::Num(NumView::Int(j)));
    let x = index_suffix(a);
    let y = index_suffix(b);
    if x == y {
        assert(signed_decimal(i) =~= x.subrange(1, x.len() - 1));
        assert(signed_decimal(j) =~= y.subrange(1, y.len() - 1));
        signed_decimal_injective(i, j);
    }
    suffixes_tell_addresses_apart(resource, a, b);
}

/// Two addresses of a resource are the same exactly where the keys add the same.
proof fn suffixes_tell_addresses_apart(
    resource: ResourceView,
    a: Option<JsonView>,
    b: Option<JsonView>,
)
    ensures
        address(resource, a) == address(resource, b) <==> index_suffix(a) == index_suffix(b),
{
    let stem = address(resource, None);
    let x = index_suffix(a);
    let y = index_suffix(b);
    assert(address(resource, a) =~= stem + x);
    assert(address(resource, b) =~= stem + y);
    assert(x =~= (stem + x).skip(stem.len() as int));
    assert(y =~= (stem + y).skip(stem.len() as int));
}

/// No number is written with a quote in front.
proof fn number_starts_without_quote(n: NumView)
    ensures
        number_text(n).len() > 0,
        number_text(n)[0] != '"',
{
    match n {
        NumView::Int(i) => {
            if i >= 0 {
                decimal_holds_digits(i as nat);
            }
        },
        NumView::Float { first, .. } => {
            assert('0' <= digit(first % 10) <= '9');
        },
    }
}

/// A resource as it would be outside any module.
pub open spec fn outside_modules(resource: ResourceView) -> ResourceView {
    ResourceView {
        module: seq![],
        mode: resource.mode,
        resource_type: resource.resource_type,
        name: resource.name,
        instances: resource.instances,
    }
}

/// The address of an instance in a module is the module in full, a dot, and the address
/// that the instance would have outside any module.
pub proof fn module_comes_first(resource: ResourceView, key: Option<JsonView>)
    requires
        resource.module.len() > 0,
    ensures
        address(resource, key) == resource.module + seq!['.'] + address(
            outside_modules(resource),
            key,
        ),
{
    assert(address(resource, key) =~= resource.module + seq!['.'] + address(
        outside_modules(resource),
        key,
    ));
}

/// Instances in different modules of equal length never share an address, whatever else
/// they are.
pub proof fn modules_keep_addresses_apart(
    a: ResourceView,
    b: ResourceView,
    key: Option<JsonView>,
    other: Option<JsonView>,
)
    requires
        a.module != b.module,
        a.module.len() == b.module.len(),
    ensures
        address(a, key) != address(b, other),
{
    let n = a.module.len() as int;
    if n == 0 {
        assert(a.module =~= b.module);
    }
    module_comes_first(a, key);
    module_comes_first(b, other);
    assert(address(a, key).subrange(0, n) =~= a.module);
    assert(address(b, other).subrange(0, n) =~= b.module);
}

/// Outside any module the address of a data source is `data.` and what follows; that of
/// any other resource is its type, a dot, its name, and what the index key adds: a text in
/// quotes and brackets, a number in brackets, and nothing for any other key or for none.
pub proof fn address_is_spelled_out(resource: ResourceView, key: Option<JsonView>)
    requires
        resource.module.len() == 0,
    ensures
        address(resource, key) == (if resource.mode == "data"@ {
            "data."@
        } else {
            seq![]
        }) + resource.resource_type + seq!['.'] + resource.name + match key {
            Some(JsonView::String(s)) => seq!['[', '"'] + s + seq!['"', ']'],
            Some(JsonView::Num(NumView::Int(i))) => seq!['['] + signed_decimal(i) + seq![']'],
            Some(JsonView::Num(n)) => seq!['['] + number_text(n) + seq![']'],
            _ => seq![],
        },
{
    assert(address(resource, key) =~= (if resource.mode == "data"@ {
        "data."@
    } else {
        seq![]
    }) + resource.resource_type + seq!['.'] + resource.name + index_suffix(key));
}

/// Resources that differ in nothing but names of equal length, or in nothing but types of
/// equal length, never share an address.
pub proof fn names_keep_addresses_apart(a: ResourceView, b: ResourceView, key: Option<JsonView>)
    requires
        a.module == b.module,
        a.mode == b.mode,
        a.resource_type.len() == b.resource_type.len(),
        a.name.len() == b.name.len(),
        a.resource_type != b.resource_type || a.name != b.name,
    ensures
        address(a, key) != address(b, key),
{
    let head = if a.module.len() == 0 {
        seq![]
    } else {
        a.module + seq!['.']
    } + if a.mode == "data"@ {
        "data."@
    } else {
        seq![]
    };
    let x = address(a, key);
    let y = address(b, key);
    assert(x =~= head + a.resource_type + seq!['.'] + a.name + index_suffix(key));
    assert(y =~= head + b.resource_type + seq!['.'] + b.name + index_suffix(key));
    let h = head.len() as int;
    let t = a.resource_type.len() as int;
    let n = a.name.len() as int;
    assert(x.subrange(h, h + t) =~= a.resource_type);
    assert(y.subrange(h, h + t) =~= b.resource_type);
    assert(x.subrange(h + t + 1, h + t + 1 + n) =~= a.name);
    assert(y.subrange(h + t + 1, h + t + 1 + n) =~= b.name);
}

} // verus!
