//! Natural numbers of any size, as written in the source.

use crate::utils::{is_decimal_digit, push_char};
use vstd::prelude::*;

verus! {

/// The value of a run of decimal digits.
pub open spec fn decimal_value(digits: Seq<char>) -> nat
    decreases digits.len(),
{
    if digits.len() == 0 {
        0
    } else {
        decimal_value(digits.drop_last()) * 10 + (digits.last() as nat - '0' as nat) as nat
    }
}

pub open spec fn all_digits(digits: Seq<char>) -> bool {
    forall|i: int| 0 <= i < digits.len() ==> is_decimal_digit(#[trigger] digits[i])
}

/// A natural number of any size, kept as the decimal digits it was written with.
#[derive(Debug, PartialEq, Eq, Hash)]
pub struct Natural {
    digits: Vec<char>,
}

impl Natural {
    #[verifier::type_invariant]
    spec fn digits_only(&self) -> bool {
        self.digits@.len() > 0 && all_digits(self.digits@)
    }

    /// At least one digit, and digits only.
    pub open spec fn wf(&self) -> bool {
        self.text().len() > 0 && all_digits(self.text())
    }

    /// The digits as written.
    pub closed spec fn text(&self) -> Seq<char> {
        self.digits@
    }

    pub open spec fn value(&self) -> nat {
        decimal_value(self.text())
    }

    pub fn from_digits(digits: Vec<char>) -> (r: Natural)
        requires
            digits@.len() > 0,
            all_digits(digits@),
        ensures
            r.wf(),
            r.text() == digits@,
    {
        Natural { digits }
    }

    /// The digits as a string.
    pub fn to_text(&self) -> (r: String)
        ensures
            r@ == self.text(),
    {
        let mut r = String::new();
        let mut i: usize = 0;
        while i < self.digits.len()
            invariant
                i <= self.digits.len(),
                r@ == self.digits@.take(i as int),
            decreases self.digits.len() - i,
        {
            push_char(&mut r, self.digits[i]);
            assert(self.digits@.take(i + 1) =~= self.digits@.take(i as int).push(
                self.digits@[i as int],
            ));
            i = i + 1;
        }
        assert(self.digits@.take(i as int) =~= self.digits@);
        r
    }

    /// The number, where it fits into 64 bits.
    pub fn to_u64(&self) -> (r: Option<u64>)
        ensures
            r == (if self.value() <= u64::MAX {
                Some(self.value() as u64)
            } else {
                None::<u64>
            }),
    {
        proof {
            use_type_invariant(self);
        }
        let ghost s = self.digits@;
        let mut acc: u128 = 0;
        let mut i: usize = 0;
        while i < self.digits.len()
            invariant
                s == self.digits@,
                all_digits(s),
                i <= s.len(),
                acc == decimal_value(s.take(i as int)),
                acc <= u64::MAX,
            decreases s.len() - i,
        {
            let d = self.digits[i];
            assert(is_decimal_digit(s[i as int]));
            assert(s.take(i + 1).drop_last() =~= s.take(i as int));
            assert(acc * 10 <= u64::MAX * 10) by (nonlinear_arith)
                requires
                    acc <= u64::MAX,
            ;
            acc = acc * 10 + ((d as u32) - ('0' as u32)) as u128;
            if acc > u64::MAX as u128 {
                proof {
                    lemma_prefix_value_bound(s, i + 1);
                }
                return None;
            }
            i = i + 1;
        }
        assert(s.take(i as int) =~= s);
        Some(acc as u64)
    }
}

impl Clone for Natural {
    fn clone(&self) -> (r: Self)
        ensures
            r.text() == self.text(),
    {
        proof {
            use_type_invariant(self);
        }
        let mut digits: Vec<char> = Vec::new();
        let mut i: usize = 0;
        while i < self.digits.len()
            invariant
                i <= self.digits@.len(),
                digits@ == self.digits@.take(i as int),
            decreases self.digits.len() - i,
        {
            digits.push(self.digits[i]);
            assert(self.digits@.take(i + 1) =~= self.digits@.take(i as int).push(
                self.digits@[i as int],
            ));
            i = i + 1;
        }
        assert(self.digits@.take(i as int) =~= self.digits@);
        Natural { digits }
    }
}

/// A number never gets smaller when more digits follow.
pub proof fn lemma_prefix_value_bound(s: Seq<char>, i: int)
    requires
        0 <= i <= s.len(),
        all_digits(s),
    ensures
        decimal_value(s.take(i)) <= decimal_value(s),
    decreases s.len() - i,
{
    if i < s.len() {
        lemma_prefix_value_bound(s, i + 1);
        assert(s.take(i + 1).drop_last() =~= s.take(i));
        assert(is_decimal_digit(s[i]));
    } else {
        assert(s.take(i) =~= s);
    }
}

} // verus!
