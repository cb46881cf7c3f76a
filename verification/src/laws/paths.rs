//! What holds of flattened values and of sensitive paths.
use vstd::prelude::*;
use vstd::utf8::is_ascii_chars;

use crate::flatten::item_leaves;
use crate::flatten::item_path;
use crate::flatten::leaves;
use crate::flatten::member_leaves;
use crate::flatten::member_path;
use crate::map::overlay;
use crate::sensitive::after_last_dot;
use crate::sensitive::before_bracket;
use crate::sensitive::last_segment;
use crate::sensitive::sensitive;
use crate::text::ascii_lower;
use crate::text::decimal;
use crate::text::digit;
use crate::text::lowercase;
use crate::value::JsonView;

verus! {

/// Entering a listing leaves every other key as it was, and a key of the listing has
/// the value of its last pair.
pub proof fn overlay_contents<V>(m: Map<Seq<char>, V>, s: Seq<(Seq<char>, V)>, k: Seq<char>)
    ensures
        (forall|i: int| 0 <= i < s.len() ==> (#[trigger] s[i]).0 != k) ==> overlay(m, s).get(k)
            == m.get(k),
        forall|i: int|
            0 <= i < s.len() && (#[trigger] s[i]).0 == k && (forall|j: int|
                i < j < s.len() ==> (#[trigger] s[j]).0 != k) ==> overlay(m, s).get(k) == Some(
                s[i].1,
            ),
    decreases s.len(),
{
    if s.len() > 0 {
        let front = s.drop_last();
        overlay_contents(m, front, k);
        if forall|i: int| 0 <= i < s.len() ==> (#[trigger] s[i]).0 != k {
            assert forall|i: int| 0 <= i < front.len() implies (#[trigger] front[i]).0 != k by {
                assert(s[i].0 != k);
            }
            assert(s[s.len() - 1].0 != k);
        }
        assert forall|i: int|
            0 <= i < s.len() && (#[trigger] s[i]).0 == k && (forall|j: int|
                i < j < s.len() ==> (#[trigger] s[j]).0 != k) implies overlay(m, s).get(k) == Some(
            s[i].1,
        ) by {
            if i < s.len() - 1 {
                assert(front[i] == s[i]);
                assert forall|j: int| i < j < front.len() implies (#[trigger] front[j]).0 != k by {
                    assert(s[j].0 != k);
                }
                assert(s[s.len() - 1].0 != k);
            }
        }
    }
}

/// The position of the last pair with a key in a listing, or -1 where there is none.
pub(crate) proof fn last_of_key<V>(s: Seq<(Seq<char>, V)>, k: Seq<char>) -> (at: int)
    ensures
        -1 <= at < s.len(),
        at >= 0 ==> s[at].0 == k,
        forall|i: int| at < i < s.len() ==> (#[trigger] s[i]).0 != k,
    decreases s.len(),
{
    if s.len() == 0 {
        -1
    } else if s.last().0 == k {
        s.len() - 1
    } else {
        let at = last_of_key(s.drop_last(), k);
        assert(at >= 0 ==> s.drop_last()[at] == s[at]);
        assert forall|i: int| at < i < s.len() implies (#[trigger] s[i]).0 != k by {
            if i < s.len() - 1 {
                assert(s.drop_last()[i] == s[i]);
            }
        }
        at
    }
}

/// Whether a path is the path of a value or leads further into it: behind a path that
/// is not empty comes a dot or an opening bracket.
pub open spec fn leads_into(prefix: Seq<char>, path: Seq<char>) -> bool {
    &&& prefix.is_prefix_of(path)
    &&& path == prefix || prefix.len() == 0 || path[prefix.len() as int] == '.'
        || path[prefix.len() as int] == '['
}

/// Whether every leaf of a listing stands on a path that leads into a value.
pub open spec fn all_lead_into(prefix: Seq<char>, s: Seq<(Seq<char>, Seq<char>)>) -> bool {
    forall|i: int| 0 <= i < s.len() ==> leads_into(prefix, #[trigger] s[i].0)
}

/// The path of every leaf is that of the value that holds it, or that path with a dot
/// or an opening bracket behind it and more. Where the value has no path, so that there
/// is nothing to set off, the path of a leaf may be anything.
pub proof fn leaf_paths_extend_prefix(prefix: Seq<char>, v: JsonView)
    ensures
        all_lead_into(prefix, leaves(prefix, v)),
    decreases v,
{
    match v {
        JsonView::Object(members) => {
            member_paths_extend_prefix(prefix, members);
            assert(leaves(prefix, v) == member_leaves(prefix, members));
        },
        JsonView::Array(items) => {
            item_paths_extend_prefix(prefix, items);
            assert(leaves(prefix, v) == item_leaves(prefix, items));
        },
        _ => {
            assert(prefix =~= prefix.subrange(0, prefix.len() as int));
        },
    }
}

proof fn member_paths_extend_prefix(prefix: Seq<char>, members: Seq<(Seq<char>, JsonView)>)
    ensures
        all_lead_into(prefix, member_leaves(prefix, members)),
    decreases members,
{
    if members.len() > 0 {
        let (key, v) = members.last();
        let path = member_path(prefix, key);
        assert(decreases_to!(members => members[members.len() - 1]));
        assert(decreases_to!(members[members.len() - 1] => members[members.len() - 1].1));
        member_paths_extend_prefix(prefix, members.drop_last());
        leaf_paths_extend_prefix(path, v);
        assert(prefix =~= path.subrange(0, prefix.len() as int));
        assert(prefix.len() > 0 ==> path[prefix.len() as int] == '.');
        longer_paths_lead_into(prefix, path, leaves(path, v));
        all_lead_into_joined(
            prefix,
            member_leaves(prefix, members.drop_last()),
            leaves(path, v),
        );
    }
}

proof fn item_paths_extend_prefix(prefix: Seq<char>, items: Seq<JsonView>)
    ensures
        all_lead_into(prefix, item_leaves(prefix, items)),
    decreases items,
{
    if items.len() > 0 {
        let path = item_path(prefix, (items.len() - 1) as nat);
        item_paths_extend_prefix(prefix, items.drop_last());
        leaf_paths_extend_prefix(path, items.last());
        assert(prefix =~= path.subrange(0, prefix.len() as int));
        assert(path[prefix.len() as int] == '[');
        longer_paths_lead_into(prefix, path, leaves(path, items.last()));
        all_lead_into_joined(
            prefix,
            item_leaves(prefix, items.drop_last()),
            leaves(path, items.last()),
        );
    }
}

/// What leads into a value leads into what holds that value.
proof fn longer_paths_lead_into(
    prefix: Seq<char>,
    path: Seq<char>,
    s: Seq<(Seq<char>, Seq<char>)>,
)
    requires
        leads_into(prefix, path),
        path.len() > prefix.len() || prefix.len() == 0,
        all_lead_into(path, s),
    ensures
        all_lead_into(prefix, s),
{
    assert forall|i: int| 0 <= i < s.len() implies leads_into(prefix, #[trigger] s[i].0) by {
        assert(leads_into(path, s[i].0));
        assert(prefix =~= s[i].0.subrange(0, prefix.len() as int));
        if prefix.len() > 0 {
            assert(s[i].0.subrange(0, path.len() as int)[prefix.len() as int]
                == s[i].0[prefix.len() as int]);
        }
    }
}

proof fn all_lead_into_joined(
    prefix: Seq<char>,
    s: Seq<(Seq<char>, Seq<char>)>,
    t: Seq<(Seq<char>, Seq<char>)>,
)
    requires
        all_lead_into(prefix, s),
        all_lead_into(prefix, t),
    ensures
        all_lead_into(prefix, s + t),
{
    assert forall|i: int| 0 <= i < (s + t).len() implies leads_into(
        prefix,
        #[trigger] (s + t)[i].0,
    ) by {
        if i < s.len() {
            assert(leads_into(prefix, s[i].0));
        } else {
            assert(leads_into(prefix, t[i - s.len()].0));
        }
    }
}

/// The part behind the last dot keeps what is appended without a dot.
pub(crate) proof fn after_last_dot_keeps_tail(path: Seq<char>, tail: Seq<char>)
    requires
        forall|i: int| 0 <= i < tail.len() ==> tail[i] != '.',
    ensures
        after_last_dot(path + tail) == after_last_dot(path) + tail,
    decreases tail.len(),
{
    if tail.len() == 0 {
        assert(path + tail =~= path);
        assert(after_last_dot(path) + tail =~= after_last_dot(path));
    } else {
        after_last_dot_keeps_tail(path, tail.drop_last());
        assert((path + tail).drop_last() =~= path + tail.drop_last());
        assert((path + tail).last() == tail.last());
        assert(tail.last() != '.');
        assert(after_last_dot(path) + tail =~= (after_last_dot(path) + tail.drop_last()).push(
            tail.last(),
        ));
    }
}

/// The part behind the last dot does not see what stands before a dot.
pub(crate) proof fn after_last_dot_forgets_head(head: Seq<char>, key: Seq<char>)
    ensures
        after_last_dot(head.push('.') + key) == after_last_dot(key),
    decreases key.len(),
{
    let path = head.push('.') + key;
    if key.len() == 0 {
        assert(path.last() == '.');
    } else {
        assert(path.drop_last() =~= head.push('.') + key.drop_last());
        assert(path.last() == key.last());
        after_last_dot_forgets_head(head, key.drop_last());
    }
}

/// What stands from an opening bracket on does not belong to the key.
pub(crate) proof fn before_bracket_forgets_tail(segment: Seq<char>, tail: Seq<char>)
    requires
        tail.len() > 0,
        tail[0] == '[',
    ensures
        before_bracket(segment + tail) == before_bracket(segment),
    decreases segment.len(),
{
    let whole = segment + tail;
    if segment.len() == 0 {
        assert(whole[0] == '[');
    } else {
        assert(whole[0] == segment[0]);
        assert(whole.drop_first() =~= segment.drop_first() + tail);
        before_bracket_forgets_tail(segment.drop_first(), tail);
    }
}

/// Decimal numerals hold digits only.
pub proof fn decimal_holds_digits(n: nat)
    ensures
        decimal(n).len() > 0,
        forall|i: int| 0 <= i < decimal(n).len() ==> '0' <= #[trigger] decimal(n)[i] <= '9',
    decreases n,
{
    if n >= 10 {
        decimal_holds_digits(n / 10);
        assert('0' <= digit(n % 10) <= '9');
    }
}

/// An array item is sensitive exactly where the array is: indices play no part.
pub proof fn items_share_sensitivity(path: Seq<char>, i: nat)
    ensures
        sensitive(item_path(path, i)) == sensitive(path),
{
    let tail = seq!['['] + decimal(i) + seq![']'];
    decimal_holds_digits(i);
    assert(item_path(path, i) =~= path + tail);
    after_last_dot_keeps_tail(path, tail);
    before_bracket_forgets_tail(after_last_dot(path), tail);
}

/// Only the key that a path ends in decides whether it is sensitive: an object
/// member is sensitive exactly where its key is, wherever the object stands.
pub proof fn last_key_decides_sensitivity(prefix: Seq<char>, key: Seq<char>)
    ensures
        sensitive(member_path(prefix, key)) == sensitive(key),
{
    if prefix.len() > 0 {
        after_last_dot_forgets_head(prefix, key);
    }
}

/// The letters of a text in lower case, as far as they are ASCII.
pub open spec fn ascii_lowered(s: Seq<char>) -> Seq<char> {
    s.map_values(|c: char| ascii_lower(c))
}

proof fn after_last_dot_lowered(path: Seq<char>)
    ensures
        after_last_dot(ascii_lowered(path)) == ascii_lowered(after_last_dot(path)),
    decreases path.len(),
{
    let low = ascii_lowered(path);
    if path.len() == 0 || path.last() == '.' {
        assert(ascii_lowered(after_last_dot(path)) =~= seq![]);
    } else {
        assert(low.last() == ascii_lower(path.last()));
        assert(low.drop_last() =~= ascii_lowered(path.drop_last()));
        after_last_dot_lowered(path.drop_last());
        assert(ascii_lowered(after_last_dot(path)) =~= ascii_lowered(
            after_last_dot(path.drop_last()),
        ).push(low.last()));
    }
}

proof fn before_bracket_lowered(segment: Seq<char>)
    ensures
        before_bracket(ascii_lowered(segment)) == ascii_lowered(before_bracket(segment)),
    decreases segment.len(),
{
    let low = ascii_lowered(segment);
    if segment.len() == 0 || segment[0] == '[' {
        assert(ascii_lowered(before_bracket(segment)) =~= seq![]);
    } else {
        assert(low[0] == ascii_lower(segment[0]));
        assert(low.drop_first() =~= ascii_lowered(segment.drop_first()));
        before_bracket_lowered(segment.drop_first());
        assert(ascii_lowered(before_bracket(segment)) =~= seq![low[0]] + ascii_lowered(
            before_bracket(segment.drop_first()),
        ));
    }
}

proof fn last_segment_is_ascii(path: Seq<char>)
    requires
        is_ascii_chars(path),
    ensures
        is_ascii_chars(last_segment(path)),
{
    after_last_dot_is_ascii(path);
    before_bracket_is_ascii(after_last_dot(path));
}

proof fn after_last_dot_is_ascii(path: Seq<char>)
    requires
        is_ascii_chars(path),
    ensures
        is_ascii_chars(after_last_dot(path)),
    decreases path.len(),
{
    if path.len() > 0 && path.last() != '.' {
        assert(path[path.len() - 1] == path.last());
        after_last_dot_is_ascii(path.drop_last());
    }
}

proof fn before_bracket_is_ascii(segment: Seq<char>)
    requires
        is_ascii_chars(segment),
    ensures
        is_ascii_chars(before_bracket(segment)),
    decreases segment.len(),
{
    if segment.len() > 0 && segment[0] != '[' {
        before_bracket_is_ascii(segment.drop_first());
    }
}

/// Two ASCII paths that differ only in the case of letters are both sensitive or
/// both not.
pub proof fn letter_case_plays_no_part(a: Seq<char>, b: Seq<char>)
    requires
        is_ascii_chars(a),
        is_ascii_chars(b),
        ascii_lowered(a) == ascii_lowered(b),
    ensures
        sensitive(a) == sensitive(b),
{
    last_segment_is_ascii(a);
    last_segment_is_ascii(b);
    after_last_dot_lowered(a);
    after_last_dot_lowered(b);
    before_bracket_lowered(after_last_dot(a));
    before_bracket_lowered(after_last_dot(b));
    assert(lowercase(last_segment(a)) == lowercase(last_segment(b)));
}

} // verus!
