//! Reading the names of the buttons of the info panel. A button that leads
//! to an object carries the object's number after a fixed text, such as
//! `examine Trip #12`.

use vstd::prelude::*;
use vstd::string::StrSliceExecFns;

verus! {

/// `c` is one of the digits `0` to `9`.
pub open spec fn is_digit(c: char) -> bool {
    '0' <= c <= '9'
}

/// The number that the digit `c` stands for.
pub open spec fn digit_value(c: char) -> int {
    c as int - '0' as int
}

/// Every character of `text` is a digit.
pub open spec fn all_digits(text: Seq<char>) -> bool {
    forall|i: int| 0 <= i < text.len() ==> is_digit(#[trigger] text[i])
}

/// The number that the digits `digits` write in base ten.
pub open spec fn decimal_value(digits: Seq<char>) -> int
    decreases digits.len(),
{
    if digits.len() == 0 {
        0
    } else {
        decimal_value(digits.drop_last()) * 10 + digit_value(digits.last())
    }
}

/// `text` without a plus sign in front.
pub open spec fn unsigned_part(text: Seq<char>) -> Seq<char> {
    if text.len() > 0 && text[0] == '+' {
        text.skip(1)
    } else {
        text
    }
}

/// The number that `text` writes, if it writes one that fits: digits, at
/// least one, with or without a plus sign in front.
pub open spec fn spec_parse_usize(text: Seq<char>) -> Option<usize> {
    let digits = unsigned_part(text);
    if digits.len() > 0 && all_digits(digits) && decimal_value(digits) <= usize::MAX {
        Some(decimal_value(digits) as usize)
    } else {
        None
    }
}

/// `text` begins with `prefix`.
pub open spec fn spec_starts_with(text: Seq<char>, prefix: Seq<char>) -> bool {
    prefix.len() <= text.len() && text.take(prefix.len() as int) =~= prefix
}

/// What a button's name says after `prefix`: nothing if the name does not
/// begin with it, else the number that follows.
pub open spec fn spec_strip_prefix_usize(name: Seq<char>, prefix: Seq<char>) -> Option<usize> {
    if spec_starts_with(name, prefix) {
        spec_parse_usize(name.skip(prefix.len() as int))
    } else {
        None
    }
}

/// The value of digits does not shrink when more digits follow.
pub proof fn lemma_decimal_value_grows(digits: Seq<char>, k: int)
    requires
        all_digits(digits),
        0 <= k <= digits.len(),
    ensures
        0 <= decimal_value(digits.take(k)) <= decimal_value(digits),
    decreases digits.len() - k,
{
    if k < digits.len() {
        lemma_decimal_value_grows(digits, k + 1);
        assert(digits.take(k + 1).drop_last() =~= digits.take(k));
        assert(is_digit(digits[k]));
        assert(digits.take(k + 1).last() == digits[k]);
        assert forall|i: int| 0 <= i < digits.take(k).len() implies is_digit(
            #[trigger] digits.take(k)[i],
        ) by {
            assert(digits.take(k)[i] == digits[i]);
        }
        lemma_decimal_value_nonnegative(digits.take(k));
    } else {
        assert(digits.take(k) =~= digits);
        lemma_decimal_value_nonnegative(digits);
    }
}

/// The value of digits is not negative.
pub proof fn lemma_decimal_value_nonnegative(digits: Seq<char>)
    requires
        all_digits(digits),
    ensures
        0 <= decimal_value(digits),
    decreases digits.len(),
{
    if digits.len() > 0 {
        assert forall|i: int| 0 <= i < digits.drop_last().len() implies is_digit(
            #[trigger] digits.drop_last()[i],
        ) by {
            assert(digits.drop_last()[i] == digits[i]);
        }
        lemma_decimal_value_nonnegative(digits.drop_last());
        assert(is_digit(digits.last()));
    }
}

/// Reads the number that `text` writes from character `from` on.
fn parse_usize_from(text: &str, from: usize) -> (r: Option<usize>)
    requires
        from <= text@.len(),
    ensures
        r == spec_parse_usize(text@.skip(from as int)),
{
    let n: usize = text.unicode_len();
    let ghost whole = text@.skip(from as int);
    let mut i: usize = from;
    if i < n && text.get_char(i) == '+' {
        i += 1;
    }
    let start: usize = i;
    let ghost digits = unsigned_part(whole);
    proof {
        assert(digits =~= text@.skip(start as int));
    }
    if i == n {
        return None;
    }
    let mut value: usize = 0;
    while i < n
        invariant
            start <= i <= n,
            start < n,
            n == text@.len(),
            whole == text@.skip(from as int),
            digits == unsigned_part(whole),
            digits == text@.skip(start as int),
            all_digits(digits.take(i - start)),
            value == decimal_value(digits.take(i - start)),
        decreases n - i,
    {
        let c: char = text.get_char(i);
        proof {
            assert(digits[i - start] == c);
            assert(digits.take(i - start + 1).drop_last() =~= digits.take(i - start));
            assert(digits.take(i - start + 1).last() == c);
        }
        if !(c >= '0' && c <= '9') {
            proof {
                assert(!is_digit(digits[i - start]));
            }
            return None;
        }
        let d: usize = (c as u32 - '0' as u32) as usize;
        if value > (usize::MAX - d) / 10 {
            proof {
                if all_digits(digits) {
                    lemma_decimal_value_grows(digits, i - start + 1);
                }
            }
            return None;
        }
        value = value * 10 + d;
        proof {
            assert forall|j: int| 0 <= j < i - start + 1 implies is_digit(
                #[trigger] digits.take(i - start + 1)[j],
            ) by {
                if j < i - start {
                    assert(digits.take(i - start)[j] == digits[j]);
                }
            }
        }
        i += 1;
    }
    proof {
        assert(digits.take(n - start) =~= digits);
    }
    Some(value)
}

/// Reads the number that `text` writes: digits, at least one, with or
/// without a plus sign in front. Gives `None` for any other text and for a
/// number that does not fit.
pub fn parse_usize(text: &str) -> (r: Option<usize>)
    ensures
        r == spec_parse_usize(text@),
{
    proof {
        assert(text@.skip(0) =~= text@);
    }
    parse_usize_from(text, 0)
}

/// Tests whether `text` begins with `prefix`.
pub fn starts_with(text: &str, prefix: &str) -> (b: bool)
    ensures
        b == spec_starts_with(text@, prefix@),
{
    let n: usize = text.unicode_len();
    let m: usize = prefix.unicode_len();
    if n < m {
        return false;
    }
    let mut i: usize = 0;
    while i < m
        invariant
            0 <= i <= m <= n,
            n == text@.len(),
            m == prefix@.len(),
            text@.take(i as int) =~= prefix@.take(i as int),
        decreases m - i,
    {
        if text.get_char(i) != prefix.get_char(i) {
            proof {
                assert(text@.take(m as int)[i as int] != prefix@[i as int]);
            }
            return false;
        }
        proof {
            assert(text@.take(i + 1) =~= text@.take(i as int).push(text@[i as int]));
            assert(prefix@.take(i + 1) =~= prefix@.take(i as int).push(prefix@[i as int]));
        }
        i += 1;
    }
    proof {
        assert(prefix@.take(m as int) =~= prefix@);
    }
    true
}

/// Reads the number in the name `x` of a button after the text `prefix`:
/// `None` if the name does not begin with `prefix`. A name that begins with
/// it must go on with a number; [`names_a_number`] tests that.
pub fn strip_prefix_usize(x: &String, prefix: &str) -> (r: Option<usize>)
    requires
        spec_starts_with(x@, prefix@) ==> spec_strip_prefix_usize(x@, prefix@).is_some(),
    ensures
        r == spec_strip_prefix_usize(x@, prefix@),
        r.is_some() <==> spec_starts_with(x@, prefix@),
{
    if starts_with(x.as_str(), prefix) {
        parse_usize_from(x.as_str(), prefix.unicode_len())
    } else {
        None
    }
}

/// Tests whether the name `x` either does not begin with `prefix` or goes on
/// with a number after it, so that [`strip_prefix_usize`] can read it.
pub fn names_a_number(x: &String, prefix: &str) -> (b: bool)
    ensures
        b == (spec_starts_with(x@, prefix@) ==> spec_strip_prefix_usize(x@, prefix@).is_some()),
{
    if starts_with(x.as_str(), prefix) {
        parse_usize_from(x.as_str(), prefix.unicode_len()).is_some()
    } else {
        true
    }
}

} // verus!
