//! Which keys are sensitive, by the words in them.
use vstd::prelude::*;

use crate::laws::paths::after_last_dot_forgets_head;
use crate::laws::paths::after_last_dot_keeps_tail;
use crate::laws::paths::before_bracket_forgets_tail;
use crate::laws::texts::is_lowered;
use crate::laws::texts::lowercase_is_lowered;
use crate::laws::texts::word_occurs_between;
use crate::sensitive::REDACTED;
use crate::sensitive::after_last_dot;
use crate::sensitive::before_bracket;
use crate::sensitive::last_segment;
use crate::sensitive::names_secret;
use crate::sensitive::sensitive;
use crate::sensitive::shown;
use crate::text::lowercase;

verus! {

/// Whether a word is one of those that mark a sensitive value.
pub open spec fn marks_secret(word: Seq<char>) -> bool {
    ||| word == "password"@
    ||| word == "secret"@
    ||| word == "token"@
    ||| word == "private_key"@
    ||| word == "access_key"@
    ||| word == "credential"@
    ||| word == "api_key"@
}

/// Whether a text is a marking word with something, or nothing, around it.
pub open spec fn has_marking_word(s: Seq<char>) -> bool {
    exists|a: Seq<char>, word: Seq<char>, b: Seq<char>|
        marks_secret(word) && s == #[trigger] (a + word + b)
}

/// Whether a path ends in a key: the key stands at the start or behind a dot, has no dot
/// and no bracket in it, and is followed by nothing or by indices.
pub open spec fn ends_in_key(path: Seq<char>, key: Seq<char>) -> bool {
    &&& forall|i: int| 0 <= i < key.len() ==> (#[trigger] key[i]) != '.' && key[i] != '['
    &&& exists|head: Seq<char>, tail: Seq<char>|
        {
            &&& path == #[trigger] (head + key + tail)
            &&& head.len() > 0 ==> head.last() == '.'
            &&& tail.len() > 0 ==> tail[0] == '['
            &&& forall|i: int| 0 <= i < tail.len() ==> (#[trigger] tail[i]) != '.'
        }
}

proof fn before_bracket_of_key(key: Seq<char>)
    requires
        forall|i: int| 0 <= i < key.len() ==> (#[trigger] key[i]) != '[',
    ensures
        before_bracket(key) == key,
    decreases key.len(),
{
    if key.len() > 0 {
        before_bracket_of_key(key.drop_first());
        assert(key =~= seq![key[0]] + key.drop_first());
    }
}

/// The last segment of a path is the key that it ends in.
pub proof fn last_segment_is_the_key(path: Seq<char>, key: Seq<char>)
    requires
        ends_in_key(path, key),
    ensures
        last_segment(path) == key,
{
    let (head, tail) = choose|head: Seq<char>, tail: Seq<char>|
        {
            &&& path == #[trigger] (head + key + tail)
            &&& head.len() > 0 ==> head.last() == '.'
            &&& tail.len() > 0 ==> tail[0] == '['
            &&& forall|i: int| 0 <= i < tail.len() ==> (#[trigger] tail[i]) != '.'
        };
    let segment = key + tail;
    assert(after_last_dot(path) == after_last_dot(segment)) by {
        if head.len() > 0 {
            after_last_dot_forgets_head(head.drop_last(), segment);
            assert(path =~= head.drop_last().push('.') + segment);
        } else {
            assert(path =~= segment);
        }
    }
    assert forall|i: int| 0 <= i < segment.len() implies segment[i] != '.' by {
        if i < key.len() {
            assert(segment[i] == key[i]);
        } else {
            assert(segment[i] == tail[i - key.len()]);
        }
    }
    after_last_dot_keeps_tail(seq![], segment);
    assert(Seq::<char>::empty() + segment =~= segment);
    assert(after_last_dot(segment) =~= segment);
    before_bracket_of_key(key);
    if tail.len() > 0 {
        before_bracket_forgets_tail(key, tail);
    } else {
        assert(segment =~= key);
    }
}

/// A lowercase key names a secret exactly where it is one of `password`, `secret`,
/// `token`, `private_key`, `access_key`, `credential` and `api_key` with something, or
/// nothing, around it.
pub proof fn secret_keys_have_a_marking_word(key: Seq<char>)
    ensures
        names_secret(key) <==> has_marking_word(key),
{
    word_occurs_between("password"@, key);
    word_occurs_between("secret"@, key);
    word_occurs_between("token"@, key);
    word_occurs_between("private_key"@, key);
    word_occurs_between("access_key"@, key);
    word_occurs_between("credential"@, key);
    word_occurs_between("api_key"@, key);
}

/// A path is sensitive exactly where the key that it ends in, in lower case, has one of
/// the marking words somewhere in it.
pub proof fn marking_words_decide(path: Seq<char>, key: Seq<char>, low: Seq<char>)
    requires
        ends_in_key(path, key),
        is_lowered(key, low),
    ensures
        sensitive(path) <==> has_marking_word(low),
{
    last_segment_is_the_key(path, key);
    lowercase_is_lowered(key, low);
    secret_keys_have_a_marking_word(low);
}

/// A path that ends in a key with a marking word in it, in letters of either case, is
/// sensitive, whatever ASCII characters stand around the word.
pub proof fn marking_word_makes_sensitive(
    path: Seq<char>,
    a: Seq<char>,
    written: Seq<char>,
    b: Seq<char>,
    word: Seq<char>,
)
    requires
        word == "password"@ || word == "secret"@ || word == "token"@ || word == "private_key"@
            || word == "access_key"@ || word == "credential"@ || word == "api_key"@,
        written.len() == word.len(),
        forall|i: int|
            0 <= i < word.len() ==> (#[trigger] written[i]) == word[i] || (65 <= written[i] as int
                <= 90 && written[i] as int + 32 == word[i] as int),
        ends_in_key(path, a + written + b),
        forall|i: int| 0 <= i < a.len() ==> (#[trigger] a[i]) as int <= 127,
        forall|i: int| 0 <= i < b.len() ==> (#[trigger] b[i]) as int <= 127,
    ensures
        sensitive(path),
{
    reveal_strlit("password");
    reveal_strlit("secret");
    reveal_strlit("token");
    reveal_strlit("private_key");
    reveal_strlit("access_key");
    reveal_strlit("credential");
    reveal_strlit("api_key");
    let key = a + written + b;
    assert forall|i: int| 0 <= i < word.len() implies 95 <= (#[trigger] word[i]) as int <= 122 by {}
    assert forall|i: int| 0 <= i < key.len() implies (#[trigger] key[i]) as int <= 127 by {
        if i < a.len() {
            assert(key[i] == a[i]);
        } else if i < a.len() + word.len() {
            assert(key[i] == written[i - a.len()]);
            assert(word[i - a.len()] as int <= 122);
        } else {
            assert(key[i] == b[i - a.len() - word.len()]);
        }
    }
    let low = lowercase(key);
    lowercase_is_lowered(key, low);
    let x = low.subrange(0, a.len() as int);
    let y = low.subrange((a.len() + word.len()) as int, low.len() as int);
    assert forall|i: int| 0 <= i < word.len() implies low[a.len() + i] == word[i] by {
        assert(key[a.len() + i] == written[i]);
        assert(low[a.len() + i] as int == word[i] as int);
    }
    assert(low =~= x + word + y);
    assert(marks_secret(word));
    marking_words_decide(path, key, low);
}

/// A path that ends in a key without any of the marking words in it is not sensitive.
pub proof fn no_marking_word_is_not_sensitive(path: Seq<char>, key: Seq<char>, low: Seq<char>)
    requires
        ends_in_key(path, key),
        is_lowered(key, low),
        forall|i: int, j: int|
            0 <= i <= j <= low.len() ==> {
                let part = #[trigger] low.subrange(i, j);
                &&& part != "password"@
                &&& part != "secret"@
                &&& part != "token"@
                &&& part != "private_key"@
                &&& part != "access_key"@
                &&& part != "credential"@
                &&& part != "api_key"@
            },
    ensures
        !sensitive(path),
{
    marking_words_decide(path, key, low);
    if has_marking_word(low) {
        let (a, word, b) = choose|a: Seq<char>, word: Seq<char>, b: Seq<char>|
            marks_secret(word) && low == #[trigger] (a + word + b);
        assert(low.subrange(a.len() as int, (a.len() + word.len()) as int) =~= word);
    }
}

/// Every path ends in a key.
pub proof fn every_path_ends_in_a_key(path: Seq<char>)
    ensures
        ends_in_key(path, last_segment(path)),
{
    let start = dot_position(path);
    let end = bracket_position(path, start);
    let head = path.subrange(0, start);
    let key = path.subrange(start, end);
    let tail = path.subrange(end, path.len() as int);
    assert(path =~= head + key + tail);
    assert(ends_in_key(path, key));
    last_segment_is_the_key(path, key);
}

/// The position behind the last dot of a path.
proof fn dot_position(path: Seq<char>) -> (at: int)
    ensures
        0 <= at <= path.len(),
        at > 0 ==> path[at - 1] == '.',
        forall|i: int| at <= i < path.len() ==> path[i] != '.',
    decreases path.len(),
{
    if path.len() == 0 || path.last() == '.' {
        path.len() as int
    } else {
        let at = dot_position(path.drop_last());
        assert(at > 0 ==> path.drop_last()[at - 1] == path[at - 1]);
        assert forall|i: int| at <= i < path.len() implies path[i] != '.' by {
            if i < path.len() - 1 {
                assert(path.drop_last()[i] == path[i]);
            }
        }
        at
    }
}

/// The position of the first opening bracket from a position on.
proof fn bracket_position(path: Seq<char>, start: int) -> (at: int)
    requires
        0 <= start <= path.len(),
    ensures
        start <= at <= path.len(),
        at < path.len() ==> path[at] == '[',
        forall|i: int| start <= i < at ==> path[i] != '[',
    decreases path.len() - start,
{
    if start == path.len() || path[start] == '[' {
        start
    } else {
        bracket_position(path, start + 1)
    }
}

/// What is hidden shows as one fixed text, and everything else as it is.
pub proof fn marker_stands_for_hidden_text(text: Seq<char>)
    ensures
        shown(true, text) == "(sensitive value, redacted)"@,
        shown(false, text) == text,
        REDACTED@ == "(sensitive value, redacted)"@,
{
}

} // verus!
