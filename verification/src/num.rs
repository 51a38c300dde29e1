//! Numbers: `number`, `nz-number`, and their decimal writing.

use vstd::prelude::*;
use vstd::std_specs::convert::TryFromSpecImpl;

use crate::chars::{is_digit, scan, scan_end, spec_token, lemma_scan_end, ByteClass};
use crate::rule::{read_view, Rule};

verus! {

/// A positive 32-bit number: `nz-number`.
#[derive(Clone, Copy, Debug, PartialEq, Eq, Hash)]
pub struct NzNumber(u32);

impl NzNumber {
    #[verifier::type_invariant]
    spec fn non_zero(self) -> bool {
        self.0 != 0
    }

    /// The number's value.
    pub closed spec fn value(self) -> u32 {
        self.0
    }

    /// The number, or `None` for zero.
    pub fn new(n: u32) -> (r: Option<NzNumber>)
        ensures
            r is None <==> n == 0,
            r matches Some(x) ==> x.value() == n,
    {
        if n == 0 {
            None
        } else {
            Some(NzNumber(n))
        }
    }

    /// The number's value.
    pub fn get(&self) -> (r: u32)
        ensures
            r == self.value(),
            r != 0,
    {
        proof {
            use_type_invariant(self);
        }
        self.0
    }
}

impl DeepView for NzNumber {
    type V = u32;

    closed spec fn deep_view(&self) -> u32 {
        self.0
    }
}

impl NzNumber {
    /// The model is the value.
    pub broadcast proof fn lemma_view_is_value(x: NzNumber)
        ensures
            #[trigger] x.deep_view() == x.value(),
    {
    }
}

impl TryFrom<u32> for NzNumber {
    type Error = ();

    fn try_from(n: u32) -> (r: Result<NzNumber, ()>)
        ensures
            r is Err <==> n == 0,
            r matches Ok(x) ==> x.value() == n,
    {
        match NzNumber::new(n) {
            Some(x) => Ok(x),
            None => Err(()),
        }
    }
}

impl TryFromSpecImpl<u32> for NzNumber {
    open spec fn obeys_try_from_spec() -> bool {
        false
    }

    open spec fn try_from_spec(v: u32) -> Result<NzNumber, ()> {
        Err(())
    }
}

/// The value of a string of decimal digits.
pub open spec fn digits_value(d: Seq<u8>) -> nat
    decreases d.len(),
{
    if d.len() == 0 {
        0
    } else {
        digits_value(d.drop_last()) * 10 + (d.last() - 48) as nat
    }
}

/// A number's value does not drop as digits are added.
pub proof fn lemma_digits_value_grows(d: Seq<u8>, k: int)
    requires
        0 <= k <= d.len(),
        forall|m: int| 0 <= m < d.len() ==> is_digit(#[trigger] d[m]),
    ensures
        digits_value(d.subrange(0, k)) <= digits_value(d),
    decreases d.len() - k,
{
    if k < d.len() {
        let e = d.drop_last();
        assert(e.subrange(0, k) =~= d.subrange(0, k));
        lemma_digits_value_grows(e, k);
        assert(d.last() >= 48);
    } else {
        assert(d.subrange(0, k) =~= d);
    }
}

/// `number = 1*DIGIT`, which must fit in 32 bits.
pub open spec fn spec_number(s: Seq<u8>, i: int) -> Option<(u32, int)> {
    match spec_token(s, i, ByteClass::Digit) {
        Some(e) => {
            let v = digits_value(s.subrange(i, e));
            if v <= u32::MAX {
                Some((v as u32, e))
            } else {
                None
            }
        },
        None => None,
    }
}

/// Reads a `number` at `i`.
pub fn read_number(s: &[u8], i: usize) -> (r: Option<(u32, usize)>)
    requires
        i <= s@.len(),
    ensures
        read_view(r) == spec_number(s@, i as int),
        r matches Some((_, j)) ==> i < j <= s@.len(),
{
    let e = scan(s, i, ByteClass::Digit);
    if !(i < e && e < s.len()) {
        return None;
    }
    proof {
        lemma_scan_end(s@, i as int, ByteClass::Digit);
    }
    let ghost d = s@.subrange(i as int, e as int);
    let mut v: u64 = 0;
    let mut k = i;
    while k < e
        invariant
            i <= k <= e < s@.len(),
            e == scan_end(s@, i as int, ByteClass::Digit),
            d == s@.subrange(i as int, e as int),
            forall|m: int| 0 <= m < d.len() ==> is_digit(#[trigger] d[m]),
            v as nat == digits_value(d.subrange(0, k - i)),
            v <= u32::MAX,
        decreases e - k,
    {
        let c = s[k];
        assert(c == d[k - i]);
        let ghost prev = d.subrange(0, k - i);
        assert(d.subrange(0, k - i + 1).drop_last() =~= prev);
        let next: u64 = v * 10 + (c - 48) as u64;
        k = k + 1;
        assert(next as nat == digits_value(d.subrange(0, k - i)));
        if next > 4294967295u64 {
            proof {
                lemma_digits_value_grows(d, k - i);
            }
            return None;
        }
        v = next;
    }
    assert(d.subrange(0, e - i) =~= d);
    Some((v as u32, e))
}

/// `nz-number = digit-nz *DIGIT`: a number other than zero.
pub open spec fn spec_nz_number(s: Seq<u8>, i: int) -> Option<(u32, int)> {
    match spec_number(s, i) {
        Some((v, j)) => if v != 0 {
            Some((v, j))
        } else {
            None
        },
        None => None,
    }
}

/// The rule `number`.
pub struct NumberRule;

impl Rule for NumberRule {
    type Out = u32;

    open spec fn spec_read(&self, s: Seq<u8>, i: int) -> Option<(u32, int)> {
        spec_number(s, i)
    }

    fn read(&self, s: &[u8], i: usize) -> (r: Option<(u32, usize)>) {
        read_number(s, i)
    }
}

/// The rule `nz-number`.
pub struct NzNumberRule;

impl Rule for NzNumberRule {
    type Out = NzNumber;

    open spec fn spec_read(&self, s: Seq<u8>, i: int) -> Option<(u32, int)> {
        spec_nz_number(s, i)
    }

    fn read(&self, s: &[u8], i: usize) -> (r: Option<(NzNumber, usize)>) {
        match read_number(s, i) {
            Some((v, j)) => match NzNumber::new(v) {
                Some(n) => {
                    proof {
                        NzNumber::lemma_view_is_value(n);
                    }
                    Some((n, j))
                },
                None => None,
            },
            None => None,
        }
    }
}

/// The decimal digits of a number, without leading zeros.
pub open spec fn decimal(n: nat) -> Seq<u8>
    decreases n,
{
    if n < 10 {
        seq![(n + 48) as u8]
    } else {
        decimal(n / 10) + seq![((n % 10) + 48) as u8]
    }
}

/// Decimal digits are digits and read back as the number.
pub proof fn lemma_decimal(n: nat)
    ensures
        decimal(n).len() > 0,
        forall|m: int| 0 <= m < decimal(n).len() ==> is_digit(#[trigger] decimal(n)[m]),
        digits_value(decimal(n)) == n,
    decreases n,
{
    if n >= 10 {
        lemma_decimal(n / 10);
        let d = decimal(n);
        assert(d.drop_last() =~= decimal(n / 10));
        assert((n / 10) * 10 + n % 10 == n) by (nonlinear_arith);
        assert(d.last() == ((n % 10) + 48) as u8);
        assert((d.last() - 48) as nat == n % 10);
        assert(digits_value(d) == digits_value(decimal(n / 10)) * 10 + n % 10);
    } else {
        assert(decimal(n).drop_last() =~= Seq::<u8>::empty());
        assert(digits_value(Seq::<u8>::empty()) == 0);
    }
}

/// A number written in decimal and followed by a byte that is not a
/// digit reads back as itself.
pub proof fn lemma_number_round_trip(n: u32, s: Seq<u8>, i: int)
    requires
        0 <= i,
        i + decimal(n as nat).len() < s.len(),
        s.subrange(i, i + decimal(n as nat).len()) == decimal(n as nat),
        !is_digit(s[i + decimal(n as nat).len()]),
    ensures
        spec_number(s, i) == Some((n, i + decimal(n as nat).len())),
{
    let d = decimal(n as nat);
    let e = i + d.len();
    lemma_decimal(n as nat);
    assert forall|k: int| i <= k < e implies ByteClass::Digit.spec_has(#[trigger] s[k]) by {
        assert(s[k] == d[k - i]);
    }
    crate::chars::lemma_scan_end_of_run(s, i, e, ByteClass::Digit);
}

/// Writes a number in decimal.
pub fn write_number(out: &mut Vec<u8>, n: u32)
    ensures
        final(out)@ == old(out)@ + decimal(n as nat),
    decreases n,
{
    if n < 10 {
        out.push((n + 48) as u8);
        assert(decimal(n as nat) =~= seq![(n + 48) as u8]);
    } else {
        write_number(out, n / 10);
        out.push((n % 10 + 48) as u8);
        assert(decimal(n as nat) =~= decimal((n / 10) as nat) + seq![((n % 10) + 48) as u8]);
    }
}

} // verus!

verus! {

/// Ten to the power `n`.
pub open spec fn pow10(n: nat) -> nat
    decreases n,
{
    if n == 0 {
        1
    } else {
        10 * pow10((n - 1) as nat)
    }
}

/// One more digit multiplies the bound by ten.
pub proof fn lemma_pow10_step(n: nat)
    ensures
        pow10(n + 1) == 10 * pow10(n),
        n <= 3 ==> pow10(n) <= 1000,
{
    reveal_with_fuel(pow10, 6);
}

/// A number other than zero, written in decimal and followed by a byte
/// that is not a digit, reads back as itself.
pub proof fn lemma_nz_number_round_trip(n: u32, s: Seq<u8>, i: int)
    requires
        n != 0,
        0 <= i,
        i + decimal(n as nat).len() < s.len(),
        s.subrange(i, i + decimal(n as nat).len()) == decimal(n as nat),
        !is_digit(s[i + decimal(n as nat).len()]),
    ensures
        spec_nz_number(s, i) == Some((n, i + decimal(n as nat).len())),
{
    lemma_number_round_trip(n, s, i);
}

} // verus!
