//! Which paths name sensitive values, and what is shown in place of such a value.
use vstd::prelude::*;
use vstd::string::StrSliceExecFns;

use crate::text::chars_of;
use crate::text::lowercase;
use crate::text::occurs;
use crate::text::occurs_in;

verus! {

/// What is shown in place of a sensitive value.
pub const REDACTED: &'static str = "(sensitive value, redacted)";

/// The part of a path behind its last dot; the whole path where it has none.
pub open spec fn after_last_dot(path: Seq<char>) -> Seq<char>
    decreases path.len(),
{
    if path.len() == 0 || path.last() == '.' {
        seq![]
    } else {
        after_last_dot(path.drop_last()).push(path.last())
    }
}

/// The part of a path segment in front of its first opening bracket; the whole
/// segment where it has none.
pub open spec fn before_bracket(segment: Seq<char>) -> Seq<char>
    decreases segment.len(),
{
    if segment.len() == 0 || segment[0] == '[' {
        seq![]
    } else {
        seq![segment[0]] + before_bracket(segment.drop_first())
    }
}

/// The key that a path ends in: its last dotted segment without array indices.
pub open spec fn last_segment(path: Seq<char>) -> Seq<char> {
    before_bracket(after_last_dot(path))
}

/// Whether a lowercase key holds one of the words that mark a sensitive value.
pub open spec fn names_secret(key: Seq<char>) -> bool {
    ||| occurs("password"@, key)
    ||| occurs("secret"@, key)
    ||| occurs("token"@, key)
    ||| occurs("private_key"@, key)
    ||| occurs("access_key"@, key)
    ||| occurs("credential"@, key)
    ||| occurs("api_key"@, key)
}

/// Whether a path names a sensitive value: the key it ends in holds one of the
/// marking words, in letters of either case.
pub open spec fn sensitive(path: Seq<char>) -> bool {
    names_secret(lowercase(last_segment(path)))
}

/// What is shown of a text: the text itself, or the fixed marker where it is to
/// be hidden.
pub open spec fn shown(hide: bool, text: Seq<char>) -> Seq<char> {
    if hide {
        REDACTED@
    } else {
        text
    }
}

/// The part of a path behind its last dot, from the position just behind that dot.
proof fn after_last_dot_from(path: Seq<char>, start: int)
    requires
        0 <= start <= path.len(),
        start > 0 ==> path[start - 1] == '.',
        forall|i: int| start <= i < path.len() ==> path[i] != '.',
    ensures
        after_last_dot(path) == path.subrange(start, path.len() as int),
    decreases path.len(),
{
    if start == path.len() {
        assert(path.subrange(start, path.len() as int) =~= seq![]);
    } else {
        after_last_dot_from(path.drop_last(), start);
        assert(path.subrange(start, path.len() as int) =~= path.drop_last().subrange(
            start,
            path.len() - 1,
        ).push(path.last()));
    }
}

/// The part of a segment in front of its first bracket, up to the position of it.
proof fn before_bracket_to(segment: Seq<char>, end: int)
    requires
        0 <= end <= segment.len(),
        end < segment.len() ==> segment[end] == '[',
        forall|i: int| 0 <= i < end ==> segment[i] != '[',
    ensures
        before_bracket(segment) == segment.subrange(0, end),
    decreases segment.len(),
{
    if end == 0 {
        assert(segment.subrange(0, end) =~= seq![]);
    } else {
        let rest = segment.drop_first();
        before_bracket_to(rest, end - 1);
        assert(segment.subrange(0, end) =~= seq![segment[0]] + rest.subrange(0, end - 1));
    }
}

/// The key that a path ends in.
pub fn last_path_segment(path: &str) -> (key: &str)
    ensures
        key@ == last_segment(path@),
{
    let chars = chars_of(path);
    let mut start: usize = 0;
    let mut i: usize = 0;
    while i < chars.len()
        invariant
            start <= i <= chars@.len(),
            start > 0 ==> chars@[start - 1] == '.',
            forall|k: int| start <= k < i ==> chars@[k] != '.',
        decreases chars@.len() - i,
    {
        if chars[i] == '.' {
            start = i + 1;
        }
        i = i + 1;
    }
    let mut end: usize = start;
    while end < chars.len() && chars[end] != '['
        invariant
            start <= end <= chars@.len(),
            forall|k: int| start <= k < end ==> chars@[k] != '[',
        decreases chars@.len() - end,
    {
        end = end + 1;
    }
    proof {
        after_last_dot_from(path@, start as int);
        let segment = path@.subrange(start as int, path@.len() as int);
        before_bracket_to(segment, end - start);
        assert(segment.subrange(0, end - start) =~= path@.subrange(start as int, end as int));
    }
    path.substring_char(start, end)
}

/// Decides whether a lowercase key holds one of the words that mark a sensitive
/// value.
pub fn key_names_secret(key: &str) -> (found: bool)
    ensures
        found == names_secret(key@),
{
    occurs_in("password", key) || occurs_in("secret", key) || occurs_in("token", key)
        || occurs_in("private_key", key) || occurs_in("access_key", key)
        || occurs_in("credential", key) || occurs_in("api_key", key)
}

/// Decides whether a path names a sensitive value.
pub fn is_sensitive_path(path: &str) -> (found: bool)
    ensures
        found == sensitive(path@),
{
    let key = last_path_segment(path).to_lowercase();
    key_names_secret(key.as_str())
}

/// What is shown of a text.
pub fn redact(hide: bool, text: &str) -> (display: String)
    ensures
        display@ == shown(hide, text@),
{
    if hide {
        REDACTED.to_owned()
    } else {
        text.to_owned()
    }
}

} // verus!
