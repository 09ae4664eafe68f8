//! Helpers on text: uniqueness of names, trimming, quotes and digits.
use crate::parser::{Declaration, Number, SpecDeclaration};
use vstd::prelude::*;
use vstd::string::StrSliceExecFns;

verus! {

/// The names that a list of declarations introduces, in order.
pub open spec fn declared_names(declarations: Seq<SpecDeclaration>) -> Seq<Seq<char>> {
    declarations.map_values(|declaration: SpecDeclaration| declaration.ident)
}

/// Whether no two of the declarations introduce the same name.
pub fn is_unique(declarations: &Vec<Declaration>) -> (unique: bool)
    ensures
        unique == declared_names(declarations.deep_view()).no_duplicates(),
{
    let ghost names = declared_names(declarations.deep_view());
    let mut i: usize = 0;
    while i < declarations.len()
        invariant
            i <= declarations.len(),
            names == declared_names(declarations.deep_view()),
            forall|a: int, b: int| 0 <= a < b < i ==> names[a] != names[b],
        decreases declarations.len() - i,
    {
        let mut j: usize = 0;
        while j < i
            invariant
                j <= i < declarations.len(),
                names == declared_names(declarations.deep_view()),
                forall|a: int| 0 <= a < j ==> names[a] != names[i as int],
            decreases i - j,
        {
            if declarations[j].ident.0 == declarations[i].ident.0 {
                assert(names[j as int] == names[i as int]);
                return false;
            }
            j += 1;
        }
        i += 1;
    }
    assert forall|a: int, b: int|
        0 <= a < names.len() && 0 <= b < names.len() && a != b implies names[a] != names[b]
    by {
        if a < b {
        } else {
            assert(names[b] != names[a]);
        }
    }
    true
}

/// The text that `str::trim_end` leaves of `text`.
pub uninterp spec fn trimmed_end(text: Seq<char>) -> Seq<char>;

/// `str::trim_end` returns its argument without the white space at its end.
/// Which characters count as white space is Unicode's matter, so the result
/// goes by the name [`trimmed_end`].
pub assume_specification[ str::trim_end ](text: &str) -> (trimmed: &str)
    ensures
        trimmed@ == trimmed_end(text@),
;

#[verifier::external_type_specification]
#[verifier::external_body]
pub struct ExUnquoteError(enquote::Error);

/// What `enquote::unquote` makes of a quoted literal: the text between the
/// quotes with its escapes resolved, or nothing where the literal is
/// malformed.
pub uninterp spec fn unquoted(literal: Seq<char>) -> Option<Seq<char>>;

/// `enquote::unquote` strips the quotes around a literal and resolves the
/// escapes inside. It fails, and never panics, on text that is not a
/// well-formed literal. Its result depends on the text alone and goes by the
/// name [`unquoted`].
pub assume_specification[ enquote::unquote ](literal: &str) -> (outcome: Result<
    String,
    enquote::Error,
>)
    ensures
        match outcome {
            Ok(text) => unquoted(literal@) == Some(text@),
            Err(_) => unquoted(literal@) is None,
        },
;

/// Whether `c` is one of the ten decimal digits.
pub open spec fn is_digit(c: char) -> bool {
    '0' <= c <= '9'
}

/// Whether `text` holds decimal digits only.
pub open spec fn all_digits(text: Seq<char>) -> bool {
    forall|i: int| 0 <= i < text.len() ==> is_digit(#[trigger] text[i])
}

/// The number that a sequence of decimal digits writes.
pub open spec fn decimal_value(digits: Seq<char>) -> int
    decreases digits.len(),
{
    if digits.len() == 0 {
        0
    } else {
        10 * decimal_value(digits.drop_last()) + (digits.last() as int - '0' as int)
    }
}

/// The magnitude that `text` writes: its decimal value, if `text` is a
/// non-empty run of digits whose value fits a [`Number`].
pub open spec fn magnitude(text: Seq<char>) -> Option<Number> {
    if text.len() > 0 && all_digits(text) && decimal_value(text) <= i64::MAX {
        Some(decimal_value(text) as i64)
    } else {
        None
    }
}

/// A run of digits writes at least what any of its prefixes writes.
pub proof fn lemma_decimal_value_grows(digits: Seq<char>, n: int)
    requires
        all_digits(digits),
        0 <= n <= digits.len(),
    ensures
        0 <= decimal_value(digits.take(n)) <= decimal_value(digits),
    decreases digits.len() - n,
{
    if n == digits.len() {
        assert(digits.take(n) =~= digits);
        lemma_decimal_value_nonnegative(digits);
    } else {
        lemma_decimal_value_grows(digits, n + 1);
        let longer = digits.take(n + 1);
        assert(longer.drop_last() =~= digits.take(n));
        assert(is_digit(digits[n]));
        assert(longer.last() == digits[n]);
        lemma_decimal_value_nonnegative(digits.take(n));
    }
}

/// A run of digits never writes a negative number.
pub proof fn lemma_decimal_value_nonnegative(digits: Seq<char>)
    requires
        all_digits(digits),
    ensures
        0 <= decimal_value(digits),
    decreases digits.len(),
{
    if digits.len() > 0 {
        lemma_decimal_value_nonnegative(digits.drop_last());
        assert(is_digit(digits[digits.len() - 1]));
    }
}

/// Reads an unsigned decimal number.
pub fn parse_magnitude(text: &str) -> (value: Option<Number>)
    ensures
        value == magnitude(text@),
        value matches Some(number) ==> number >= 0,
{
    let len: usize = text.unicode_len();
    if len == 0 {
        return None;
    }
    let mut value: i64 = 0;
    let mut i: usize = 0;
    while i < len
        invariant
            i <= len == text@.len(),
            all_digits(text@.take(i as int)),
            value == decimal_value(text@.take(i as int)),
            0 <= value,
        decreases len - i,
    {
        let c: char = text.get_char(i);
        if !(c >= '0' && c <= '9') {
            assert(!is_digit(text@[i as int]));
            return None;
        }
        let digit: i64 = (c as u8 - 48) as i64;
        proof {
            let longer = text@.take(i + 1);
            assert(longer.drop_last() =~= text@.take(i as int));
            assert(longer.last() == c);
            assert forall|k: int| 0 <= k < longer.len() implies is_digit(#[trigger] longer[k]) by {
                if k < i {
                    assert(longer[k] == text@.take(i as int)[k]);
                }
            }
            assert(decimal_value(longer) == 10 * value + digit);
        }
        if value > (i64::MAX - digit) / 10 {
            proof {
                if all_digits(text@) {
                    lemma_decimal_value_grows(text@, i + 1);
                }
            }
            return None;
        }
        value = 10 * value + digit;
        i += 1;
    }
    assert(text@.take(len as int) =~= text@);
    Some(value)
}

} // verus!
