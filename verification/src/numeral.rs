//! Decimal numerals: strings of digits with an optional decimal point, kept
//! exactly as they are written, and the numbers that they denote.

use vstd::prelude::*;

verus! {

/// Whether `c` is one of the ten ASCII digits.
pub open spec fn is_digit_char(c: char) -> bool {
    '0' <= c && c <= '9'
}

/// Whether every character of `s` is a digit.
pub open spec fn all_digits(s: Seq<char>) -> bool {
    forall|i: int| 0 <= i < s.len() ==> is_digit_char(#[trigger] s[i])
}

/// The number that the digit `c` stands for.
pub open spec fn digit_value(c: char) -> nat {
    (c as int - '0' as int) as nat
}

/// The number written by the digits of `value` followed by the digits `s`,
/// in base ten.
pub open spec fn append_digits(value: nat, s: Seq<char>) -> nat
    decreases s.len(),
{
    if s.len() == 0 {
        value
    } else {
        10 * append_digits(value, s.drop_last()) + digit_value(s.last())
    }
}

/// The natural number that a string of digits denotes in base ten.
pub open spec fn digits_value(s: Seq<char>) -> nat {
    append_digits(0, s)
}

/// Ten to the power `n`.
pub open spec fn pow10(n: nat) -> nat
    decreases n,
{
    if n == 0 {
        1
    } else {
        10 * pow10((n - 1) as nat)
    }
}

/// Appending the digits of `a` and then those of `b` is appending those of
/// `a + b`.
pub proof fn lemma_append_digits_concat(value: nat, a: Seq<char>, b: Seq<char>)
    ensures
        append_digits(value, a + b) == append_digits(append_digits(value, a), b),
    decreases b.len(),
{
    if b.len() == 0 {
        assert(a + b =~= a);
    } else {
        assert((a + b).drop_last() =~= a + b.drop_last());
        lemma_append_digits_concat(value, a, b.drop_last());
    }
}

/// Appending digits shifts the value by one decimal place for each digit and
/// adds what the digits denote.
pub proof fn lemma_append_digits_value(value: nat, s: Seq<char>)
    ensures
        append_digits(value, s) == value * pow10(s.len()) + digits_value(s),
    decreases s.len(),
{
    if s.len() == 0 {
        assert(value * 1 == value) by (nonlinear_arith);
    } else {
        let t = s.drop_last();
        lemma_append_digits_value(value, t);
        let p = pow10(t.len());
        assert(pow10(s.len()) == 10 * p);
        assert(10 * (value * p) == value * (10 * p)) by (nonlinear_arith);
    }
}

/// The digits read so far never denote more than all the digits do.
pub proof fn lemma_append_digits_prefix(value: nat, s: Seq<char>, k: int)
    requires
        0 <= k <= s.len(),
    ensures
        append_digits(value, s.take(k)) <= append_digits(value, s),
    decreases s.len() - k,
{
    if k == s.len() {
        assert(s.take(k) =~= s);
    } else {
        assert(s.take(k + 1).drop_last() =~= s.take(k));
        lemma_append_digits_prefix(value, s, k + 1);
    }
}

/// Tells whether a character is a decimal digit.
pub fn is_digit(c: char) -> (b: bool)
    ensures
        b == is_digit_char(c),
{
    '0' <= c && c <= '9'
}

/// The mathematical view of a [`Numeral`]: the digits written before the
/// decimal point and those written after it. A numeral without a point has
/// no digits after it.
pub struct NumeralView {
    pub whole: Seq<char>,
    pub frac: Seq<char>,
}

impl NumeralView {
    /// At least one digit before the point, and nothing but digits.
    pub open spec fn wf(self) -> bool {
        &&& self.whole.len() > 0
        &&& all_digits(self.whole)
        &&& all_digits(self.frac)
    }

    /// The numeral as it is written.
    pub open spec fn text(self) -> Seq<char> {
        if self.frac.len() == 0 {
            self.whole
        } else {
            self.whole + seq!['.'] + self.frac
        }
    }

    /// All digits read as one natural number. The numeral denotes
    /// `mantissa() / 10^scale()`.
    pub open spec fn mantissa(self) -> nat {
        digits_value(self.whole + self.frac)
    }

    /// The number of digits after the point.
    pub open spec fn scale(self) -> nat {
        self.frac.len()
    }
}

/// The index of the first decimal point in `s`, or the length of `s` where it
/// holds none.
pub open spec fn first_point(s: Seq<char>) -> int
    decreases s.len(),
{
    if s.len() == 0 || s[0] == '.' {
        0
    } else {
        1 + first_point(s.drop_first())
    }
}

/// The digits of `s` before its first decimal point.
pub open spec fn whole_part(s: Seq<char>) -> Seq<char> {
    s.take(first_point(s))
}

/// What follows the first decimal point of `s`.
pub open spec fn frac_part(s: Seq<char>) -> Seq<char> {
    if first_point(s) < s.len() {
        s.skip(first_point(s) + 1)
    } else {
        Seq::empty()
    }
}

/// Whether `s` is a decimal literal: one or more digits, optionally followed
/// by a point and one or more digits.
pub open spec fn is_literal(s: Seq<char>) -> bool {
    &&& whole_part(s).len() > 0
    &&& all_digits(whole_part(s))
    &&& all_digits(frac_part(s))
    &&& first_point(s) < s.len() ==> frac_part(s).len() > 0
}

/// The numeral that the literal `s` writes down.
pub open spec fn literal_of(s: Seq<char>) -> NumeralView {
    NumeralView { whole: whole_part(s), frac: frac_part(s) }
}

/// `first_point` is within bounds, marks a point, and no point comes before it.
pub proof fn lemma_first_point(s: Seq<char>)
    ensures
        0 <= first_point(s) <= s.len(),
        first_point(s) < s.len() ==> s[first_point(s)] == '.',
        forall|i: int| 0 <= i < first_point(s) ==> #[trigger] s[i] != '.',
    decreases s.len(),
{
    if s.len() == 0 || s[0] == '.' {
    } else {
        let t = s.drop_first();
        lemma_first_point(t);
        assert forall|i: int| 0 <= i < first_point(s) implies #[trigger] s[i] != '.' by {
            if i > 0 {
                assert(s[i] == t[i - 1]);
            }
        }
    }
}

/// An index that marks a point, or the end, and has no point before it is
/// the first point.
pub proof fn lemma_first_point_unique(s: Seq<char>, p: int)
    requires
        0 <= p <= s.len(),
        p < s.len() ==> s[p] == '.',
        forall|i: int| 0 <= i < p ==> #[trigger] s[i] != '.',
    ensures
        first_point(s) == p,
{
    lemma_first_point(s);
    let q = first_point(s);
    if q < p {
        assert(s[q] != '.');
    } else if p < q {
        assert(s[p] != '.');
    }
}

/// A well-formed numeral is written as a literal, and reading that literal
/// gives the numeral back.
pub proof fn lemma_text_is_literal(n: NumeralView)
    requires
        n.wf(),
    ensures
        is_literal(n.text()),
        literal_of(n.text()) == n,
{
    let s = n.text();
    let p = n.whole.len() as int;
    assert forall|i: int| 0 <= i < p implies #[trigger] s[i] != '.' by {
        assert(s[i] == n.whole[i]);
        assert(is_digit_char(n.whole[i]));
    }
    lemma_first_point_unique(s, p);
    assert(whole_part(s) =~= n.whole);
    assert(frac_part(s) =~= n.frac);
}

/// A literal is the text of the numeral that it writes down, and that
/// numeral is well formed.
pub proof fn lemma_literal_is_text(s: Seq<char>)
    requires
        is_literal(s),
    ensures
        literal_of(s).wf(),
        literal_of(s).text() == s,
{
    lemma_first_point(s);
    assert(literal_of(s).text() =~= s);
}

/// A string of digits holds no point, so it is a literal if it is not empty.
pub proof fn lemma_digits_are_literal(s: Seq<char>)
    requires
        all_digits(s),
    ensures
        first_point(s) == s.len(),
        whole_part(s) == s,
        frac_part(s) == Seq::<char>::empty(),
        s.len() > 0 ==> is_literal(s),
{
    assert forall|i: int| 0 <= i < s.len() implies #[trigger] s[i] != '.' by {
        assert(is_digit_char(s[i]));
    }
    lemma_first_point_unique(s, s.len() as int);
    assert(whole_part(s) =~= s);
}

/// A string that begins with digits and a point and goes on with digits is
/// a literal once a digit follows the point.
pub proof fn lemma_pointed_literal(s: Seq<char>, p: int)
    requires
        0 < p < s.len(),
        all_digits(s.take(p)),
        s[p] == '.',
        all_digits(s.skip(p + 1)),
    ensures
        first_point(s) == p,
        whole_part(s) == s.take(p),
        frac_part(s) == s.skip(p + 1),
        p + 1 < s.len() ==> is_literal(s),
{
    assert forall|i: int| 0 <= i < p implies #[trigger] s[i] != '.' by {
        assert(s.take(p)[i] == s[i]);
        assert(is_digit_char(s.take(p)[i]));
    }
    lemma_first_point_unique(s, p);
}

/// A digit after the point of `s` leaves the part before the point as it
/// is and lengthens the part after it.
pub proof fn lemma_push_after_point(s: Seq<char>, c: char)
    requires
        first_point(s) < s.len(),
        all_digits(whole_part(s)),
    ensures
        first_point(s.push(c)) == first_point(s),
        whole_part(s.push(c)) == whole_part(s),
        frac_part(s.push(c)) == frac_part(s).push(c),
{
    let p = first_point(s);
    let t = s.push(c);
    lemma_first_point(s);
    assert forall|i: int| 0 <= i < p implies #[trigger] t[i] != '.' by {
        assert(t[i] == s[i]);
    }
    assert(t[p] == s[p]);
    lemma_first_point_unique(t, p);
    assert(whole_part(t) =~= whole_part(s));
    assert(frac_part(t) =~= frac_part(s).push(c));
}

/// Appends the characters of `chars` to `s`.
fn push_chars(s: &mut String, chars: &Vec<char>)
    ensures
        final(s)@ == old(s)@ + chars@,
{
    let mut i: usize = 0;
    while i < chars.len()
        invariant
            i <= chars@.len(),
            s@ == old(s)@ + chars@.take(i as int),
        decreases chars.len() - i,
    {
        s.push(chars[i]);
        proof {
            assert(chars@.take(i + 1) =~= chars@.take(i as int).push(chars@[i as int]));
            assert(s@ =~= old(s)@ + chars@.take(i + 1));
        }
        i += 1;
    }
    proof {
        assert(chars@.take(i as int) =~= chars@);
    }
}

/// The number that a digit stands for.
fn digit_to_value(c: char) -> (d: u64)
    requires
        is_digit_char(c),
    ensures
        d == digit_value(c),
        d <= 9,
{
    (c as u32 - '0' as u32) as u64
}

/// Appends `digits` to the decimal digits of `value`, unless the result is
/// too large for a `u64`.
fn append_digits_checked(value: u64, digits: &Vec<char>) -> (r: Option<u64>)
    requires
        all_digits(digits@),
    ensures
        r == (if append_digits(value as nat, digits@) <= u64::MAX {
            Some(append_digits(value as nat, digits@) as u64)
        } else {
            None
        }),
{
    let mut acc: u64 = value;
    let mut i: usize = 0;
    while i < digits.len()
        invariant
            i <= digits@.len(),
            all_digits(digits@),
            acc == append_digits(value as nat, digits@.take(i as int)),
        decreases digits.len() - i,
    {
        let d = digit_to_value(digits[i]);
        proof {
            assert(digits@.take(i + 1).drop_last() =~= digits@.take(i as int));
            lemma_append_digits_prefix(value as nat, digits@, i + 1);
        }
        match acc.checked_mul(10) {
            None => {
                return None;
            },
            Some(shifted) => match shifted.checked_add(d) {
                None => {
                    return None;
                },
                Some(next) => {
                    acc = next;
                },
            },
        }
        i += 1;
    }
    proof {
        assert(digits@.take(i as int) =~= digits@);
    }
    Some(acc)
}

/// A decimal number kept exactly as it was written: the digits before the
/// decimal point and the digits after it.
#[derive(Debug, PartialEq, Eq)]
pub struct Numeral {
    whole: Vec<char>,
    frac: Vec<char>,
}

impl View for Numeral {
    type V = NumeralView;

    closed spec fn view(&self) -> NumeralView {
        NumeralView { whole: self.whole@, frac: self.frac@ }
    }
}

impl Clone for Numeral {
    fn clone(&self) -> (r: Numeral)
        ensures
            r@ == self@,
    {
        proof {
            use_type_invariant(self);
        }
        let whole = self.whole.clone();
        let frac = self.frac.clone();
        proof {
            assert(whole@ =~= self.whole@);
            assert(frac@ =~= self.frac@);
        }
        Numeral { whole, frac }
    }
}

impl Numeral {
    #[verifier::type_invariant]
    closed spec fn inv(self) -> bool {
        self@.wf()
    }

    /// Reads a numeral from its characters. Gives `None` unless they are a
    /// decimal literal.
    pub fn from_chars(chars: &Vec<char>) -> (r: Option<Numeral>)
        ensures
            r is Some <==> is_literal(chars@),
            r matches Some(n) ==> n@ == literal_of(chars@) && n@.wf(),
    {
        let len = chars.len();
        let mut whole: Vec<char> = Vec::new();
        let mut frac: Vec<char> = Vec::new();
        let mut i: usize = 0;
        while i < len && chars[i] != '.'
            invariant
                i <= len,
                len == chars@.len(),
                whole@ == chars@.take(i as int),
                all_digits(whole@),
                forall|j: int| 0 <= j < i ==> #[trigger] chars@[j] != '.',
            decreases len - i,
        {
            let c = chars[i];
            if !is_digit(c) {
                proof {
                    lemma_first_point(chars@);
                    let p = first_point(chars@);
                    if p <= i as int {
                        assert(chars@[p] == '.');
                    }
                    assert(whole_part(chars@)[i as int] == c);
                }
                return None;
            }
            whole.push(c);
            proof {
                assert(whole@ =~= chars@.take(i + 1));
            }
            i += 1;
        }
        proof {
            lemma_first_point_unique(chars@, i as int);
        }
        if i == 0 {
            return None;
        }
        if i < len {
            let start: usize = i + 1;
            let mut k: usize = start;
            while k < len
                invariant
                    start <= k <= len,
                    start == i + 1,
                    len == chars@.len(),
                    first_point(chars@) == i,
                    frac@ == chars@.subrange(start as int, k as int),
                    all_digits(frac@),
                decreases len - k,
            {
                let c = chars[k];
                if !is_digit(c) {
                    proof {
                        assert(frac_part(chars@)[k - start] == c);
                    }
                    return None;
                }
                frac.push(c);
                proof {
                    assert(frac@ =~= chars@.subrange(start as int, k + 1));
                }
                k += 1;
            }
            proof {
                assert(frac@ =~= frac_part(chars@));
            }
            if start == len {
                return None;
            }
        } else {
            proof {
                assert(frac@ =~= frac_part(chars@));
            }
        }
        Some(Numeral { whole, frac })
    }

    /// Reads a numeral from text. Gives `None` unless the text is a decimal
    /// literal: one or more digits, optionally followed by a point and one or
    /// more digits.
    pub fn parse(text: &str) -> (r: Option<Numeral>)
        ensures
            r is Some <==> is_literal(text@),
            r matches Some(n) ==> n@ == literal_of(text@) && n@.wf() && n@.text() == text@,
    {
        broadcast use vstd::string::group_string_axioms;

        let mut chars: Vec<char> = Vec::new();
        for c in it: text.chars()
            invariant
                it.seq() == text@,
                chars@ == text@.take(it.index()),
        {
            chars.push(c);
            proof {
                assert(chars@ =~= text@.take(it.index() + 1));
            }
        }
        proof {
            assert(chars@ =~= text@);
            if is_literal(text@) {
                lemma_literal_is_text(text@);
            }
        }
        Numeral::from_chars(&chars)
    }

    /// The numeral as text: its digits, with the point where it has any
    /// after it.
    pub fn to_string(&self) -> (s: String)
        ensures
            s@ == self@.text(),
    {
        let mut s = String::new();
        push_chars(&mut s, &self.whole);
        if self.frac.len() > 0 {
            s.push('.');
            push_chars(&mut s, &self.frac);
        }
        s
    }

    /// All digits read as one number, so that the numeral denotes
    /// `mantissa / 10^scale`. Gives `None` where that number is too large
    /// for a `u64`.
    pub fn mantissa(&self) -> (m: Option<u64>)
        ensures
            m == (if self@.mantissa() <= u64::MAX {
                Some(self@.mantissa() as u64)
            } else {
                None
            }),
    {
        proof {
            use_type_invariant(self);
            lemma_append_digits_concat(0, self.whole@, self.frac@);
            lemma_append_digits_prefix(0, self.whole@ + self.frac@, self.whole@.len() as int);
            assert((self.whole@ + self.frac@).take(self.whole@.len() as int) =~= self.whole@);
        }
        match append_digits_checked(0, &self.whole) {
            None => None,
            Some(value) => append_digits_checked(value, &self.frac),
        }
    }

    /// The number of digits after the decimal point.
    pub fn scale(&self) -> (n: usize)
        ensures
            n == self@.scale(),
    {
        self.frac.len()
    }
}

} // verus!
