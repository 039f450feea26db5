//! Component values.

use crate::text::{
    all_digits, char_is_digit, chars_of, decimal, is_digit, lemma_decimal_value_of_decimal,
    to_decimal,
};
use vstd::prelude::*;

verus! {

/// Whether `s` is an unsigned decimal numeral: one or more digits, then optionally a point
/// and any number of digits.
pub open spec fn is_numeral(s: Seq<char>) -> bool {
    &&& s.len() >= 1
    &&& is_digit(s[0])
    &&& forall|i: int| 0 <= i < s.len() ==> is_digit(#[trigger] s[i]) || s[i] == '.'
    &&& forall|i: int, j: int| 0 <= i < j < s.len() ==> !(#[trigger] s[i] == '.' && #[trigger] s[j] == '.')
}

/// A run of digits is a numeral.
pub proof fn lemma_digits_are_numeral(s: Seq<char>)
    requires
        s.len() >= 1,
        all_digits(s),
    ensures
        is_numeral(s),
{
}

/// The value of a component, as the decimal numeral that was written for it.
#[derive(Debug)]
pub struct Value {
    val: String,
}

impl View for Value {
    type V = Seq<char>;

    closed spec fn view(&self) -> Seq<char> {
        self.val@
    }
}

impl Value {
    #[verifier::type_invariant]
    spec fn inv(&self) -> bool {
        is_numeral(self.val@)
    }

    /// The value written `numeral`, if that is an unsigned decimal numeral.
    pub fn new(numeral: &str) -> (r: Option<Self>)
        ensures
            r is Some <==> is_numeral(numeral@),
            r matches Some(v) ==> v@ == numeral@,
    {
        let chars = chars_of(numeral);
        if chars.len() == 0 || !char_is_digit(chars[0]) {
            return None;
        }
        let mut seen_point = false;
        let mut i: usize = 0;
        while i < chars.len()
            invariant
                i <= chars.len(),
                chars@ == numeral@,
                forall|k: int| 0 <= k < i ==> is_digit(#[trigger] chars[k]) || chars[k] == '.',
                forall|k: int, j: int| 0 <= k < j < i ==> !(#[trigger] chars[k] == '.' && #[trigger] chars[j] == '.'),
                seen_point <==> exists|k: int| 0 <= k < i && chars[k] == '.',
            decreases chars.len() - i,
        {
            let c = chars[i];
            if c == '.' {
                if seen_point {
                    proof {
                        let k = choose|k: int| 0 <= k < i && chars[k] == '.';
                        assert(chars[k] == '.' && chars[i as int] == '.');
                    }
                    return None;
                }
                seen_point = true;
            } else if !char_is_digit(c) {
                assert(!(is_digit(chars[i as int]) || chars[i as int] == '.'));
                return None;
            }
            i += 1;
        }
        Some(Value { val: numeral.to_owned() })
    }

    /// The value written `numeral`.
    pub(crate) fn from_numeral(numeral: String) -> (r: Self)
        requires
            is_numeral(numeral@),
        ensures
            r@ == numeral@,
    {
        Value { val: numeral }
    }

    /// The whole number `n`.
    pub fn from_integer(n: usize) -> (r: Self)
        ensures
            r@ == decimal(n as nat),
    {
        proof {
            lemma_decimal_value_of_decimal(n as nat);
            lemma_digits_are_numeral(decimal(n as nat));
        }
        Value { val: to_decimal(n) }
    }

    /// The numeral of the value.
    pub fn value<'a>(&'a self) -> (r: &'a str)
        ensures
            r@ == self@,
            is_numeral(r@),
    {
        proof {
            use_type_invariant(self);
        }
        self.val.as_str()
    }
}

impl Clone for Value {
    fn clone(&self) -> (r: Self)
        ensures
            r == *self,
    {
        proof {
            use_type_invariant(self);
        }
        Value { val: self.val.clone() }
    }
}

} // verus!
