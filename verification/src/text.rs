//! Strings as sequences of characters: their order, their decimal numerals and
//! the few `std` string operations the rest of the crate is built from.
use vstd::prelude::*;
use vstd::std_specs::iter::IteratorSpec;
use vstd::utf8::is_ascii_chars;

verus! {

/// `String::push` appends one character at the end and changes nothing before it.
pub assume_specification[ std::string::String::push ](s: &mut std::string::String, ch: char)
    ensures
        final(s)@ == old(s)@.push(ch),
;

/// `String::push_str` appends a whole text at the end and changes nothing before it.
pub assume_specification[ std::string::String::push_str ](
    s: &mut std::string::String,
    string: &str,
)
    ensures
        final(s)@ == old(s)@ + string@,
;

/// What `str::to_lowercase` makes of a text that is not plain ASCII: the Unicode
/// lowercase mapping of the whole text.
pub uninterp spec fn unicode_lowercase(s: Seq<char>) -> Seq<char>;

/// The lowercase form of an ASCII letter, and any other character as it is.
pub open spec fn ascii_lower(c: char) -> char {
    if 'A' <= c <= 'Z' {
        ((c as u32) + 32) as char
    } else {
        c
    }
}

/// `str::to_lowercase` maps the letters `A` to `Z` to `a` to `z` and leaves every
/// other ASCII character alone; what it does to other texts depends on the text
/// alone and goes by the name [`unicode_lowercase`].
pub assume_specification[ str::to_lowercase ](s: &str) -> (lower: std::string::String)
    ensures
        is_ascii_chars(s@) ==> lower@ == s@.map_values(|c: char| ascii_lower(c)),
        !is_ascii_chars(s@) ==> lower@ == unicode_lowercase(s@),
;

/// The lowercase form of a text.
pub open spec fn lowercase(s: Seq<char>) -> Seq<char> {
    if is_ascii_chars(s) {
        s.map_values(|c: char| ascii_lower(c))
    } else {
        unicode_lowercase(s)
    }
}

/// The characters of a text.
pub fn chars_of(s: &str) -> (chars: Vec<char>)
    ensures
        chars@ == s@,
{
    let mut chars: Vec<char> = Vec::new();
    for c in it: s.chars()
        invariant
            chars@ == it.seq().take(it.index() as int),
            it.seq() == s@,
    {
        chars.push(c);
    }
    chars
}

/// Whether a word stands somewhere in a text.
pub open spec fn occurs(word: Seq<char>, s: Seq<char>) -> bool {
    exists|i: int|
        0 <= i <= s.len() - word.len() && #[trigger] s.subrange(i, i + word.len()) == word
}

/// Decides whether a word stands somewhere in a text.
pub fn occurs_in(word: &str, text: &str) -> (found: bool)
    ensures
        found == occurs(word@, text@),
{
    let w = chars_of(word);
    let t = chars_of(text);
    if w.len() > t.len() {
        return false;
    }
    let places: usize = t.len() - w.len();
    let mut i: usize = 0;
    while i <= places
        invariant
            w@ == word@,
            t@ == text@,
            places + w@.len() == t@.len() <= usize::MAX,
            i <= places + 1,
            forall|k: int| 0 <= k < i ==> #[trigger] t@.subrange(k, k + w@.len()) != w@,
        decreases t@.len() - i,
    {
        let ghost window = t@.subrange(i as int, i + w@.len());
        let mut j: usize = 0;
        while j < w.len() && t[i + j] == w[j]
            invariant
                j <= w@.len(),
                i + w@.len() <= t@.len() <= usize::MAX,
                window == t@.subrange(i as int, i + w@.len()),
                forall|k: int| 0 <= k < j ==> #[trigger] window[k] == w@[k],
            decreases w@.len() - j,
        {
            assert(window[j as int] == t@[i + j]);
            j = j + 1;
        }
        if j == w.len() {
            assert(window =~= w@);
            return true;
        }
        assert(window[j as int] == t@[i + j]);
        i = i + 1;
    }
    false
}

/// Whether `a` comes strictly before `b` when texts are ordered character by
/// character, by code point, a proper prefix coming first.
pub open spec fn precedes(a: Seq<char>, b: Seq<char>) -> bool
    decreases a.len(),
{
    if b.len() == 0 {
        false
    } else if a.len() == 0 {
        true
    } else if a[0] != b[0] {
        a[0] < b[0]
    } else {
        precedes(a.drop_first(), b.drop_first())
    }
}

/// Decides whether one text comes strictly before another.
pub fn before(a: &str, b: &str) -> (earlier: bool)
    ensures
        earlier == precedes(a@, b@),
{
    let mut xs = a.chars();
    let mut ys = b.chars();
    loop
        invariant
            precedes(a@, b@) == precedes(xs.remaining(), ys.remaining()),
            xs.decrease() is Some,
        decreases xs.decrease()->0,
    {
        match (xs.next(), ys.next()) {
            (_, None) => return false,
            (None, Some(_)) => return true,
            (Some(x), Some(y)) => {
                if x != y {
                    return x < y;
                }
            },
        }
    }
}

/// No text comes before itself.
pub proof fn precedes_irreflexive(a: Seq<char>)
    ensures
        !precedes(a, a),
    decreases a.len(),
{
    if a.len() > 0 {
        precedes_irreflexive(a.drop_first());
    }
}

/// The order of texts is transitive.
pub proof fn precedes_transitive(a: Seq<char>, b: Seq<char>, c: Seq<char>)
    requires
        precedes(a, b),
        precedes(b, c),
    ensures
        precedes(a, c),
    decreases a.len(),
{
    if a.len() > 0 && a[0] == b[0] && b[0] == c[0] {
        precedes_transitive(a.drop_first(), b.drop_first(), c.drop_first());
    }
}

/// Of two different texts one comes before the other.
pub proof fn precedes_total(a: Seq<char>, b: Seq<char>)
    requires
        a != b,
    ensures
        precedes(a, b) || precedes(b, a),
    decreases a.len(),
{
    if a.len() == 0 || b.len() == 0 {
        assert(a =~= b || a.len() != b.len());
    } else if a[0] == b[0] {
        assert(a =~= seq![a[0]] + a.drop_first());
        assert(b =~= seq![b[0]] + b.drop_first());
        precedes_total(a.drop_first(), b.drop_first());
    }
}

/// Decides whether two texts are the same.
pub fn same_text(a: &str, b: &str) -> (same: bool)
    ensures
        same == (a@ == b@),
{
    proof {
        precedes_irreflexive(a@);
        if a@ != b@ {
            precedes_total(a@, b@);
        }
    }
    !before(a, b) && !before(b, a)
}

/// The decimal digit for a number below ten.
pub open spec fn digit(d: nat) -> char {
    (('0' as nat) + d) as char
}

/// The decimal numeral of a natural number, without leading zeros.
pub open spec fn decimal(n: nat) -> Seq<char>
    decreases n,
{
    if n < 10 {
        seq![digit(n)]
    } else {
        decimal(n / 10).push(digit(n % 10))
    }
}

/// The decimal numeral of an integer, with a minus sign where it is negative.
pub open spec fn signed_decimal(i: int) -> Seq<char> {
    if i < 0 {
        seq!['-'] + decimal((-i) as nat)
    } else {
        decimal(i as nat)
    }
}

/// Appends the decimal numeral of a number.
pub fn push_decimal(out: &mut String, n: u64)
    ensures
        final(out)@ == old(out)@ + decimal(n as nat),
    decreases n,
{
    let d: u8 = (n % 10) as u8;
    let c: char = ('0' as u8 + d) as char;
    if n >= 10 {
        push_decimal(out, n / 10);
    }
    out.push(c);
    assert(decimal(n as nat).len() > 0);
    assert(out@ =~= old(out)@ + decimal(n as nat));
}

} // verus!
