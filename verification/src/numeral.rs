//! Exact-decimal number literals.
//!
//! The language's numbers are decimal literals.  The library keeps them as
//! exact decimals: a whole part and a fractional part, both digit strings,
//! normalized so that equal values have equal representations (no leading
//! zeros on the whole part, no trailing zeros on the fractional part).
//! The canonical rendering of an integral number appends `.0`.

use vstd::prelude::*;

verus! {

/// True for the ten ASCII digit characters.
pub open spec fn spec_is_digit(c: char) -> bool {
    48 <= c as u32 <= 57
}

/// True when every character of `s` is an ASCII digit.
pub open spec fn all_digits(s: Seq<char>) -> bool {
    forall|i: int| 0 <= i < s.len() ==> spec_is_digit(#[trigger] s[i])
}

/// Drops leading `'0'` characters, always keeping at least one character.
pub open spec fn strip_leading_zeros(s: Seq<char>) -> Seq<char>
    decreases s.len(),
{
    if s.len() > 1 && s[0] == '0' {
        strip_leading_zeros(s.subrange(1, s.len() as int))
    } else {
        s
    }
}

/// Drops trailing `'0'` characters, possibly leaving the empty sequence.
pub open spec fn strip_trailing_zeros(s: Seq<char>) -> Seq<char>
    decreases s.len(),
{
    if s.len() > 0 && s[s.len() - 1] == '0' {
        strip_trailing_zeros(s.subrange(0, s.len() - 1))
    } else {
        s
    }
}

/// Stripping leading zeros of a digit string keeps it a non-empty digit
/// string and leaves no leading zero (except for a lone `"0"`).
pub proof fn lemma_strip_leading_wf(s: Seq<char>)
    requires
        s.len() > 0,
        all_digits(s),
    ensures
        strip_leading_zeros(s).len() > 0,
        all_digits(strip_leading_zeros(s)),
        strip_leading_zeros(s).len() > 1 ==> strip_leading_zeros(s)[0] != '0',
    decreases s.len(),
{
    if s.len() > 1 && s[0] == '0' {
        let t = s.subrange(1, s.len() as int);
        assert(all_digits(t)) by {
            assert(forall|i: int| 0 <= i < t.len() ==> t[i] == s[i + 1]);
        }
        lemma_strip_leading_wf(t);
    }
}

/// Stripping trailing zeros of a digit string keeps it a digit string and
/// leaves no trailing zero.
pub proof fn lemma_strip_trailing_wf(s: Seq<char>)
    requires
        all_digits(s),
    ensures
        all_digits(strip_trailing_zeros(s)),
        strip_trailing_zeros(s).len() > 0 ==> strip_trailing_zeros(s)[strip_trailing_zeros(
            s,
        ).len() - 1] != '0',
    decreases s.len(),
{
    if s.len() > 0 && s[s.len() - 1] == '0' {
        let t = s.subrange(0, s.len() - 1);
        assert(all_digits(t)) by {
            assert(forall|i: int| 0 <= i < t.len() ==> t[i] == s[i]);
        }
        lemma_strip_trailing_wf(t);
    }
}

/// The mathematical value of a `Numeral`: its two digit sequences.
#[verifier::ext_equal]
pub ghost struct SpecNumeral {
    pub whole: Seq<char>,
    pub frac: Seq<char>,
}

/// A well-formed numeral: a non-empty normalized whole part and a normalized
/// fractional part (empty for integral numbers).
pub open spec fn numeral_wf(n: SpecNumeral) -> bool {
    &&& n.whole.len() > 0
    &&& all_digits(n.whole)
    &&& (n.whole.len() > 1 ==> n.whole[0] != '0')
    &&& all_digits(n.frac)
    &&& (n.frac.len() > 0 ==> n.frac[n.frac.len() - 1] != '0')
}

/// An exact decimal literal in normalized form.
#[derive(Debug, Clone, PartialEq)]
pub struct Numeral {
    whole: String,
    frac: String,
}

impl View for Numeral {
    type V = SpecNumeral;

    closed spec fn view(&self) -> SpecNumeral {
        SpecNumeral { whole: self.whole@, frac: self.frac@ }
    }
}

impl Numeral {
    /// Well-formedness of the stored representation.
    pub open spec fn wf(&self) -> bool {
        numeral_wf(self@)
    }

    /// Builds a numeral from already-normalized digit strings.
    pub fn new(whole: String, frac: String) -> (r: Numeral)
        requires
            numeral_wf(SpecNumeral { whole: whole@, frac: frac@ }),
        ensures
            r@ == (SpecNumeral { whole: whole@, frac: frac@ }),
            r.wf(),
    {
        Numeral { whole, frac }
    }

    /// A copy with the same value.
    pub fn duplicate(&self) -> (r: Numeral)
        ensures
            r@ == self@,
    {
        Numeral { whole: self.whole.clone(), frac: self.frac.clone() }
    }

    /// Structural equality of two numerals.
    pub fn same(&self, other: &Numeral) -> (r: bool)
        ensures
            r == (self@ == other@),
    {
        let r = self.whole == other.whole && self.frac == other.frac;
        proof {
            if r {
                assert(self@ =~= other@);
            }
        }
        r
    }

    /// The whole part, as digits.
    pub fn whole_part(&self) -> (r: &String)
        ensures
            r@ == self@.whole,
    {
        &self.whole
    }

    /// The fractional part, as digits; empty for an integral number.
    pub fn frac_part(&self) -> (r: &String)
        ensures
            r@ == self@.frac,
    {
        &self.frac
    }
}

} // verus!
