//! Character classes of the expression language, and whitespace removal.
use vstd::prelude::*;

verus! {

/// ASCII whitespace: space, tab, line feed, form feed, carriage return.
pub open spec fn is_whitespace_spec(c: char) -> bool {
    c == ' ' || c == '\t' || c == '\n' || c == '\x0C' || c == '\r'
}

/// The text with every ASCII whitespace character removed.
pub open spec fn strip_whitespace(text: Seq<char>) -> Seq<char> {
    text.filter(|c: char| !is_whitespace_spec(c))
}

/// Whether `c` is ASCII whitespace.
#[verifier::when_used_as_spec(is_whitespace_spec)]
pub fn is_whitespace(c: char) -> (r: bool)
    ensures
        r == is_whitespace_spec(c),
{
    c == ' ' || c == '\t' || c == '\n' || c == '\x0C' || c == '\r'
}

/// An ASCII decimal digit.
pub open spec fn is_digit_spec(c: char) -> bool {
    '0' <= c <= '9'
}

/// A character that may start a name: an ASCII letter or an underscore.
pub open spec fn is_letter_spec(c: char) -> bool {
    'a' <= c <= 'z' || 'A' <= c <= 'Z' || c == '_'
}

/// A character that may continue a name: a letter, an underscore or a digit.
pub open spec fn is_name_char_spec(c: char) -> bool {
    is_letter_spec(c) || is_digit_spec(c)
}

/// A character that may continue a number: a digit or a decimal point.
pub open spec fn is_number_char_spec(c: char) -> bool {
    is_digit_spec(c) || c == '.'
}

/// A sign character, which is an operator or the start of a number
/// depending on what stands before it.
pub open spec fn is_sign_spec(c: char) -> bool {
    c == '+' || c == '-'
}

/// Whether `c` is an ASCII decimal digit.
#[verifier::when_used_as_spec(is_digit_spec)]
pub fn is_digit(c: char) -> (r: bool)
    ensures
        r == is_digit_spec(c),
{
    '0' <= c && c <= '9'
}

/// Whether `this` may start a name.
#[verifier::when_used_as_spec(is_letter_spec)]
pub fn is_letter(this: char) -> (r: bool)
    ensures
        r == is_letter_spec(this),
{
    ('a' <= this && this <= 'z') || ('A' <= this && this <= 'Z') || this == '_'
}

/// Whether `c` may continue a name.
#[verifier::when_used_as_spec(is_name_char_spec)]
pub fn is_name_char(c: char) -> (r: bool)
    ensures
        r == is_name_char_spec(c),
{
    is_letter(c) || is_digit(c)
}

/// Whether `c` may continue a number.
#[verifier::when_used_as_spec(is_number_char_spec)]
pub fn is_number_char(c: char) -> (r: bool)
    ensures
        r == is_number_char_spec(c),
{
    is_digit(c) || c == '.'
}

/// Whether `c` is `+` or `-`.
#[verifier::when_used_as_spec(is_sign_spec)]
pub fn is_sign(c: char) -> (r: bool)
    ensures
        r == is_sign_spec(c),
{
    c == '+' || c == '-'
}

/// Stripping a prefix that is one character longer either appends that
/// character or changes nothing.
pub proof fn lemma_strip_step(text: Seq<char>, i: int)
    requires
        0 <= i < text.len(),
    ensures
        strip_whitespace(text.take(i + 1)) == if is_whitespace_spec(text[i]) {
            strip_whitespace(text.take(i))
        } else {
            strip_whitespace(text.take(i)).push(text[i])
        },
{
    reveal(Seq::filter);
    assert(text.take(i + 1).drop_last() =~= text.take(i));
}

/// Collects the characters of `text` that are not ASCII whitespace.
pub fn significant_chars(text: &str) -> (r: Vec<char>)
    ensures
        r@ == strip_whitespace(text@),
{
    broadcast use vstd::string::axiom_spec_iter;

    let mut out: Vec<char> = Vec::new();
    proof {
        reveal(Seq::filter);
        assert(text@.take(0) =~= Seq::<char>::empty());
    }
    for c in it: text.chars()
        invariant
            it.seq() == text@,
            out@ == strip_whitespace(text@.take(it.index() as int)),
    {
        proof {
            lemma_strip_step(text@, it.index() as int);
        }
        if !is_whitespace(c) {
            out.push(c);
        }
    }
    proof {
        assert(text@.take(text@.len() as int) =~= text@);
    }
    out
}

} // verus!
