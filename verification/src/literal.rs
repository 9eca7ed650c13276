//! Decimal literals: what counts as one, and a type that holds one.
use crate::chars::{is_digit, is_digit_spec, is_number_char, is_number_char_spec, is_sign, is_sign_spec};
use vstd::prelude::*;

verus! {

/// How many decimal digits `s` holds.
pub open spec fn digit_count(s: Seq<char>) -> nat
    decreases s.len(),
{
    if s.len() == 0 {
        0
    } else {
        digit_count(s.drop_last()) + if is_digit_spec(s.last()) {
            1nat
        } else {
            0nat
        }
    }
}

/// How many decimal points `s` holds.
pub open spec fn dot_count(s: Seq<char>) -> nat
    decreases s.len(),
{
    if s.len() == 0 {
        0
    } else {
        dot_count(s.drop_last()) + if s.last() == '.' {
            1nat
        } else {
            0nat
        }
    }
}

/// A decimal literal: an optional sign, then digits with at most one
/// decimal point among them, and at least one digit in all. The point may
/// stand first or last.
pub open spec fn is_decimal(s: Seq<char>) -> bool {
    &&& forall|i: int|
        0 <= i < s.len() ==> is_number_char_spec(#[trigger] s[i]) || (i == 0 && is_sign_spec(s[i]))
    &&& digit_count(s) >= 1
    &&& dot_count(s) <= 1
}

/// Decides whether `text` is a decimal literal.
pub fn is_decimal_text(text: &str) -> (r: bool)
    ensures
        r == is_decimal(text@),
{
    broadcast use vstd::string::axiom_spec_iter;

    let mut shape_ok = true;
    let mut at_start = true;
    let mut seen_digit = false;
    let mut seen_dot = false;
    let mut seen_dots = false;
    proof {
        assert(text@.take(0) =~= Seq::<char>::empty());
    }
    for c in it: text.chars()
        invariant
            it.seq() == text@,
            at_start == (it.index() == 0),
            shape_ok == (forall|i: int|
                0 <= i < it.index() ==> is_number_char_spec(#[trigger] text@[i]) || (i == 0
                    && is_sign_spec(text@[i]))),
            seen_digit == (digit_count(text@.take(it.index() as int)) >= 1),
            seen_dot == (dot_count(text@.take(it.index() as int)) >= 1),
            seen_dots == (dot_count(text@.take(it.index() as int)) >= 2),
    {
        proof {
            let k = it.index() as int;
            assert(text@.take(k + 1).drop_last() =~= text@.take(k));
            assert(text@.take(k + 1).last() == text@[k]);
        }
        if !(is_number_char(c) || (at_start && is_sign(c))) {
            shape_ok = false;
        }
        if is_digit(c) {
            seen_digit = true;
        }
        if c == '.' {
            if seen_dot {
                seen_dots = true;
            }
            seen_dot = true;
        }
        at_start = false;
    }
    proof {
        assert(text@.take(text@.len() as int) =~= text@);
    }
    shape_ok && seen_digit && !seen_dots
}

/// A decimal literal as it was written, sign included.
#[derive(Debug, PartialEq)]
pub struct Literal {
    text: String,
}

impl View for Literal {
    type V = Seq<char>;

    closed spec fn view(&self) -> Seq<char> {
        self.text@
    }
}

impl Clone for Literal {
    fn clone(&self) -> (r: Literal)
        ensures
            r@ == self@,
    {
        proof {
            use_type_invariant(self);
        }
        Literal { text: self.text.clone() }
    }
}

impl Literal {
    #[verifier::type_invariant]
    spec fn well_formed(self) -> bool {
        is_decimal(self.text@)
    }

    /// Makes a literal of `text`, if it is one.
    pub fn new(text: &str) -> (r: Option<Literal>)
        ensures
            r is Some <==> is_decimal(text@),
            r is Some ==> r.unwrap()@ == text@,
    {
        if is_decimal_text(text) {
            Some(Literal { text: String::from_str(text) })
        } else {
            None
        }
    }

    /// The literal as it was written.
    pub fn text(&self) -> (r: &str)
        ensures
            r@ == self@,
            is_decimal(r@),
    {
        proof {
            use_type_invariant(self);
        }
        self.text.as_str()
    }
}

} // verus!
