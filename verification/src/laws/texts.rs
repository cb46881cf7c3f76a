//! What holds of texts: numerals, the order, letter case and words.
use vstd::prelude::*;
use vstd::utf8::is_ascii_chars;

use crate::laws::paths::decimal_holds_digits;
use crate::text::decimal;
use crate::text::digit;
use crate::text::lowercase;
use crate::text::occurs;
use crate::text::precedes;
use crate::text::signed_decimal;
use crate::text::unicode_lowercase;

verus! {

/// The number that a row of decimal digits stands for.
pub open spec fn numeral_value(s: Seq<char>) -> int
    decreases s.len(),
{
    if s.len() == 0 {
        0
    } else {
        10 * numeral_value(s.drop_last()) + (s.last() as int - 48)
    }
}

/// A decimal numeral is a row of digits that stands for the number, without a leading
/// zero but for zero itself.
pub proof fn decimal_reads_back(n: nat)
    ensures
        numeral_value(decimal(n)) == n,
        decimal(n).len() > 0,
        forall|i: int| 0 <= i < decimal(n).len() ==> 48 <= (#[trigger] decimal(n)[i]) as int <= 57,
        n > 0 ==> decimal(n)[0] != '0',
        n == 0 ==> decimal(n) == seq!['0'],
    decreases n,
{
    decimal_holds_digits(n);
    assert(decimal(n).last() == digit(n % 10));
    assert(digit(n % 10) as int == 48 + n % 10);
    if n >= 10 {
        decimal_reads_back(n / 10);
        assert(decimal(n).drop_last() =~= decimal(n / 10));
        assert(decimal(n)[0] == decimal(n / 10)[0]);
    } else {
        assert(decimal(n).drop_last() =~= seq![]);
        assert(numeral_value(decimal(n).drop_last()) == 0);
    }
    assert(numeral_value(decimal(n)) == 10 * numeral_value(decimal(n).drop_last()) + n % 10);
}

/// The numeral of an integer is that of its size, behind a minus sign where the integer
/// is negative.
pub proof fn signed_decimal_reads_back(i: int)
    ensures
        i >= 0 ==> signed_decimal(i).len() > 0 && signed_decimal(i)[0] != '-' && numeral_value(
            signed_decimal(i),
        ) == i,
        i < 0 ==> signed_decimal(i).len() > 1 && signed_decimal(i)[0] == '-' && numeral_value(
            signed_decimal(i).skip(1),
        ) == -i,
        i == 0 ==> signed_decimal(i) == seq!['0'],
{
    if i >= 0 {
        decimal_reads_back(i as nat);
    } else {
        decimal_reads_back((-i) as nat);
        assert(signed_decimal(i).skip(1) =~= decimal((-i) as nat));
    }
}

/// A word occurs in a text exactly where the text is the word with something, or
/// nothing, in front of it and behind it.
pub proof fn word_occurs_between(word: Seq<char>, s: Seq<char>)
    ensures
        occurs(word, s) <==> exists|a: Seq<char>, b: Seq<char>| s == #[trigger] (a + word + b),
{
    if occurs(word, s) {
        let i = choose|i: int|
            0 <= i <= s.len() - word.len() && #[trigger] s.subrange(i, i + word.len()) == word;
        let a = s.subrange(0, i);
        let b = s.subrange(i + word.len(), s.len() as int);
        assert(s =~= a + s.subrange(i, i + word.len()) + b);
    }
    if exists|a: Seq<char>, b: Seq<char>| s == #[trigger] (a + word + b) {
        let (a, b) = choose|a: Seq<char>, b: Seq<char>| s == #[trigger] (a + word + b);
        assert(s.subrange(a.len() as int, (a.len() + word.len()) as int) =~= word);
    }
}

/// Of two texts that part ways after a common part, the one that goes on with the smaller
/// character comes first.
pub proof fn first_difference_decides(
    common: Seq<char>,
    x: char,
    y: char,
    a: Seq<char>,
    b: Seq<char>,
)
    requires
        x != y,
    ensures
        precedes(common.push(x) + a, common.push(y) + b) <==> x < y,
    decreases common.len(),
{
    let s = common.push(x) + a;
    let t = common.push(y) + b;
    if common.len() == 0 {
        assert(s[0] == x && t[0] == y);
    } else {
        assert(s[0] == common[0] && t[0] == common[0]);
        assert(s.drop_first() =~= common.drop_first().push(x) + a);
        assert(t.drop_first() =~= common.drop_first().push(y) + b);
        first_difference_decides(common.drop_first(), x, y, a, b);
    }
}

/// A text comes before every longer text that starts with it, and not after it.
pub proof fn shorter_text_comes_first(a: Seq<char>, b: Seq<char>)
    ensures
        precedes(a, a + b) <==> b.len() > 0,
        !precedes(a + b, a),
    decreases a.len(),
{
    if a.len() == 0 {
        assert(a + b =~= b);
    } else {
        assert((a + b)[0] == a[0]);
        assert((a + b).drop_first() =~= a.drop_first() + b);
        shorter_text_comes_first(a.drop_first(), b);
    }
}

/// Whether a text is another text in lower case: in ASCII, capital letters have become
/// small ones, thirty-two places further on, and everything else is as it was. Beyond
/// ASCII it is what Unicode says.
pub open spec fn is_lowered(s: Seq<char>, low: Seq<char>) -> bool {
    if forall|i: int| 0 <= i < s.len() ==> (#[trigger] s[i]) as int <= 127 {
        &&& low.len() == s.len()
        &&& forall|i: int|
            0 <= i < s.len() ==> (#[trigger] low[i]) as int == if 65 <= s[i] as int <= 90 {
                s[i] as int + 32
            } else {
                s[i] as int
            }
    } else {
        low == unicode_lowercase(s)
    }
}

proof fn no_char_below_zero(c: char)
    ensures
        '\0' <= c,
        0 <= c as int,
{
}

/// The lowercase form of a text is that text in lower case, and no other text is.
pub proof fn lowercase_is_lowered(s: Seq<char>, low: Seq<char>)
    ensures
        low == lowercase(s) <==> is_lowered(s, low),
{
    let plain = forall|i: int| 0 <= i < s.len() ==> (#[trigger] s[i]) as int <= 127;
    if is_ascii_chars(s) {
        assert forall|i: int| 0 <= i < s.len() implies (#[trigger] s[i]) as int <= 127 by {
            assert(0 <= s[i] as nat <= 127);
        }
    }
    if plain {
        assert forall|i: int| 0 <= i < s.len() implies '\0' <= #[trigger] s[i] <= '\u{7f}' by {
            no_char_below_zero(s[i]);
        }
    }
    if is_ascii_chars(s) && is_lowered(s, low) {
        assert forall|i: int| 0 <= i < s.len() implies low[i] == #[trigger] lowercase(s)[i] by {
            assert(low[i] as int == lowercase(s)[i] as int);
        }
        assert(low =~= lowercase(s));
    }
}

} // verus!
