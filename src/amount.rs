//! Exact decimal amounts: validation of incoming amounts, half-to-even
//! rounding to the ledger's four fractional digits, and checked arithmetic.

use rust_decimal::Decimal;
use rust_decimal::RoundingStrategy;
use vstd::prelude::*;

use crate::error::Error;

verus! {

/// Largest magnitude of a mantissa: 96 bits, as in `rust_decimal::Decimal`.
pub const MAX_MANTISSA: i128 = 0xFFFF_FFFF_FFFF_FFFF_FFFF_FFFF;

/// Largest number of fractional digits of a decimal.
pub const MAX_SCALE: u32 = 28;

/// Number of fractional digits that the ledger keeps.
pub const LEDGER_SCALE: u32 = 4;

/// Largest accepted deposit or withdrawal, 50000, in units of 0.0001.
pub const MAX_LEDGER_UNITS: i128 = 500_000_000;

/// `10^n`.
pub open spec fn pow10(n: nat) -> int
    decreases n,
{
    if n == 0 {
        1
    } else {
        10 * pow10((n - 1) as nat)
    }
}

/// A decimal number `mantissa * 10^-scale`. Two amounts are equal when both
/// their mantissa and their scale are equal.
#[derive(Clone, Copy, Debug, PartialEq, Eq, Structural)]
pub struct Amount {
    pub mantissa: i128,
    pub scale: u32,
}

/// `|x|`.
pub open spec fn abs(x: int) -> int {
    if x < 0 {
        -x
    } else {
        x
    }
}

/// `n / d` rounded to the nearest integer, ties to the even one (`n >= 0`, `d > 0`).
pub open spec fn div_half_even(n: int, d: int) -> int {
    let q = n / d;
    let r = n % d;
    if 2 * r > d || (2 * r == d && q % 2 == 1) {
        q + 1
    } else {
        q
    }
}

/// `a` rounded to at most four fractional digits, half to even. An amount
/// with four digits or fewer is kept as it is; any other gets scale four.
pub open spec fn round_to_ledger_scale(a: Amount) -> Amount {
    if a.scale <= LEDGER_SCALE {
        a
    } else {
        let q = div_half_even(abs(a.mantissa as int), pow10((a.scale - LEDGER_SCALE) as nat));
        Amount { mantissa: (if a.mantissa < 0 { -q } else { q }) as i128, scale: LEDGER_SCALE }
    }
}

impl Amount {
    /// Within the range of a decimal: a 96-bit mantissa and at most 28 digits.
    pub open spec fn wf(self) -> bool {
        -MAX_MANTISSA <= self.mantissa <= MAX_MANTISSA && self.scale <= MAX_SCALE
    }
}

/// Relies on `rust_decimal::Decimal::round_dp_with_strategy` with
/// `MidpointNearestEven`: rounding to four fractional digits, half to even,
/// keeping an amount that has four digits or fewer unchanged.
#[verifier::external_body]
fn round_half_even(a: Amount) -> (r: Amount)
    requires
        a.wf(),
    ensures
        r == round_to_ledger_scale(a),
{
    let d = Decimal::from_i128_with_scale(a.mantissa, a.scale)
        .round_dp_with_strategy(LEDGER_SCALE, RoundingStrategy::MidpointNearestEven);
    Amount { mantissa: d.mantissa(), scale: d.scale() }
}


/// `10^a * 10^b == 10^(a + b)`.
pub proof fn lemma_pow10_add(a: nat, b: nat)
    ensures
        pow10(a) * pow10(b) == pow10(a + b),
    decreases a,
{
    if a > 0 {
        lemma_pow10_add((a - 1) as nat, b);
        assert(pow10(a) * pow10(b) == 10 * (pow10((a - 1) as nat) * pow10(b))) by (nonlinear_arith)
            requires
                pow10(a) == 10 * pow10((a - 1) as nat),
        ;
    }
}

/// `1 <= 10^a <= 10^b` for `a <= b`.
pub proof fn lemma_pow10_monotone(a: nat, b: nat)
    requires
        a <= b,
    ensures
        1 <= pow10(a) <= pow10(b),
    decreases b,
{
    if b > a {
        lemma_pow10_monotone(a, (b - 1) as nat);
    } else if a > 0 {
        lemma_pow10_monotone((a - 1) as nat, (a - 1) as nat);
    }
}

/// `10^28`, the largest power that a decimal's scale reaches.
pub proof fn lemma_pow10_max_scale()
    ensures
        pow10(MAX_SCALE as nat) == 10_000_000_000_000_000_000_000_000_000,
{
    reveal_with_fuel(pow10, 29);
}

/// `10^n` for `n <= 28`.
pub fn pow10_exec(n: u32) -> (r: i128)
    requires
        n <= MAX_SCALE,
    ensures
        r == pow10(n as nat),
        1 <= r <= 10_000_000_000_000_000_000_000_000_000,
{
    proof {
        lemma_pow10_max_scale();
        lemma_pow10_monotone(n as nat, MAX_SCALE as nat);
    }
    let mut r: i128 = 1;
    let mut i: u32 = 0;
    while i < n
        invariant
            i <= n <= MAX_SCALE,
            r == pow10(i as nat),
            pow10(n as nat) <= 10_000_000_000_000_000_000_000_000_000,
        decreases n - i,
    {
        proof {
            lemma_pow10_monotone((i + 1) as nat, n as nat);
        }
        r = r * 10;
        i = i + 1;
    }
    r
}

/// Below 0.0001: `mantissa * 10^-scale < 10^-4`.
pub open spec fn below_minimum(a: Amount) -> bool {
    a.mantissa * pow10(LEDGER_SCALE as nat) < pow10(a.scale as nat)
}

/// Above 50000: `mantissa * 10^-scale > 50000`.
pub open spec fn above_maximum(a: Amount) -> bool {
    a.mantissa > 50000 * pow10(a.scale as nat)
}

/// The ledger's form of an accepted amount: rounded half to even to four
/// fractional digits and written with scale exactly four.
pub open spec fn ledger_amount(a: Amount) -> Amount {
    let r = round_to_ledger_scale(a);
    Amount {
        mantissa: (r.mantissa * pow10((LEDGER_SCALE - r.scale) as nat)) as i128,
        scale: LEDGER_SCALE,
    }
}

/// What validating a deposit gives.
pub open spec fn validate_deposit(a: Amount) -> Result<Amount, Error> {
    if below_minimum(a) {
        Err(Error::DepositBelowMinimum)
    } else if above_maximum(a) {
        Err(Error::DepositAboveMaximum)
    } else {
        Ok(ledger_amount(a))
    }
}

/// What validating a withdrawal gives.
pub open spec fn validate_withdrawal(a: Amount) -> Result<Amount, Error> {
    if below_minimum(a) {
        Err(Error::WithdrawBelowMinimum)
    } else if above_maximum(a) {
        Err(Error::WithdrawAboveMaximum)
    } else {
        Ok(ledger_amount(a))
    }
}

/// An amount within the bounds is, in ledger form, between 0.0001 and 50000.
pub proof fn lemma_ledger_amount_in_bounds(a: Amount)
    requires
        a.wf(),
        !below_minimum(a),
        !above_maximum(a),
    ensures
        round_to_ledger_scale(a).scale <= LEDGER_SCALE,
        1 <= round_to_ledger_scale(a).mantissa * pow10(
            (LEDGER_SCALE - round_to_ledger_scale(a).scale) as nat,
        ) <= MAX_LEDGER_UNITS,
        ledger_amount(a).scale == LEDGER_SCALE,
        1 <= ledger_amount(a).mantissa <= MAX_LEDGER_UNITS,
{
    let s = a.scale as nat;
    let m = a.mantissa as int;
    let r = round_to_ledger_scale(a);
    if a.scale <= LEDGER_SCALE {
        let k = (LEDGER_SCALE - a.scale) as nat;
        lemma_pow10_add(k, s);
        lemma_pow10_monotone(0, s);
        lemma_pow10_monotone(0, k);
        let p = pow10(s);
        let u = m * pow10(k);
        assert(u * p == m * pow10(LEDGER_SCALE as nat)) by (nonlinear_arith)
            requires
                u == m * pow10(k),
                pow10(k) * p == pow10(LEDGER_SCALE as nat),
        ;
        reveal_with_fuel(pow10, 5);
        assert(1 <= u <= 500_000_000) by (nonlinear_arith)
            requires
                u * p == m * 10000,
                m * 10000 >= p,
                m <= 50000 * p,
                p >= 1,
        ;
        assert(r == a);
        assert(u == r.mantissa * pow10((LEDGER_SCALE - r.scale) as nat));
    } else {
        let k = (a.scale - LEDGER_SCALE) as nat;
        let d = pow10(k);
        lemma_pow10_add(LEDGER_SCALE as nat, k);
        lemma_pow10_monotone(0, k);
        reveal_with_fuel(pow10, 5);
        assert(d <= m <= 500_000_000 * d) by (nonlinear_arith)
            requires
                m * 10000 >= pow10(s),
                m <= 50000 * pow10(s),
                10000 * d == pow10(s),
                d >= 1,
        ;
        let q = m / d;
        let rem = m % d;
        assert(1 <= q <= 500_000_000 && (q == 500_000_000 ==> rem == 0)) by (nonlinear_arith)
            requires
                d <= m <= 500_000_000 * d,
                d >= 1,
                q == m / d,
                rem == m % d,
        ;
        assert(rem < d);
        assert(abs(m) == m);
        assert(r.mantissa == div_half_even(m, d));
        assert(1 <= r.mantissa <= 500_000_000);
        assert(pow10((LEDGER_SCALE - r.scale) as nat) == 1);
    }
}

/// Rounds an amount within the bounds and brings it to scale four.
fn to_ledger_scale(a: Amount) -> (r: Amount)
    requires
        a.wf(),
        !below_minimum(a),
        !above_maximum(a),
    ensures
        r == ledger_amount(a),
{
    proof {
        lemma_ledger_amount_in_bounds(a);
    }
    let rounded = round_half_even(a);
    let factor = pow10_exec(LEDGER_SCALE - rounded.scale);
    Amount { mantissa: rounded.mantissa * factor, scale: LEDGER_SCALE }
}

/// Whether `a` is below 0.0001 and whether it is above 50000.
fn out_of_bounds(a: Amount) -> (r: (bool, bool))
    requires
        a.wf(),
    ensures
        r.0 == below_minimum(a),
        r.1 == above_maximum(a),
{
    let p = pow10_exec(a.scale);
    reveal_with_fuel(pow10, 5);
    (a.mantissa * 10000 < p, a.mantissa > 50000 * p)
}

impl Amount {
    /// The amount `mantissa * 10^-scale`.
    pub fn new(mantissa: i128, scale: u32) -> (r: Amount)
        requires
            -MAX_MANTISSA <= mantissa <= MAX_MANTISSA,
            scale <= MAX_SCALE,
        ensures
            r.mantissa == mantissa,
            r.scale == scale,
            r.wf(),
    {
        Amount { mantissa, scale }
    }

    /// Zero at the ledger's scale.
    pub fn zero() -> (r: Amount)
        ensures
            r == (Amount { mantissa: 0, scale: LEDGER_SCALE }),
    {
        Amount { mantissa: 0, scale: LEDGER_SCALE }
    }

    /// The sum of two amounts of one scale. An overflow of the decimal range
    /// is a broken invariant of the caller, so it is ruled out by `requires`.
    pub fn checked_add(self, rhs: Amount) -> (r: Amount)
        requires
            self.scale == rhs.scale,
            -MAX_MANTISSA <= self.mantissa + rhs.mantissa <= MAX_MANTISSA,
        ensures
            r.mantissa == self.mantissa + rhs.mantissa,
            r.scale == self.scale,
    {
        Amount { mantissa: self.mantissa + rhs.mantissa, scale: self.scale }
    }

    /// The difference of two amounts of one scale, with the same overflow rule
    /// as `checked_add`.
    pub fn checked_subtract(self, rhs: Amount) -> (r: Amount)
        requires
            self.scale == rhs.scale,
            -MAX_MANTISSA <= self.mantissa - rhs.mantissa <= MAX_MANTISSA,
        ensures
            r.mantissa == self.mantissa - rhs.mantissa,
            r.scale == self.scale,
    {
        Amount { mantissa: self.mantissa - rhs.mantissa, scale: self.scale }
    }

    /// Validates a deposit amount: refused below 0.0001 or above 50000,
    /// otherwise rounded half to even to four fractional digits.
    pub fn check_and_round_deposit(amount: Amount) -> (r: Result<Amount, Error>)
        requires
            amount.wf(),
        ensures
            r == validate_deposit(amount),
    {
        let (below, above) = out_of_bounds(amount);
        if below {
            Err(Error::DepositBelowMinimum)
        } else if above {
            Err(Error::DepositAboveMaximum)
        } else {
            Ok(to_ledger_scale(amount))
        }
    }

    /// Validates a withdrawal amount, by the same bounds and rounding as a deposit.
    pub fn check_and_round_withdraw(amount: Amount) -> (r: Result<Amount, Error>)
        requires
            amount.wf(),
        ensures
            r == validate_withdrawal(amount),
    {
        let (below, above) = out_of_bounds(amount);
        if below {
            Err(Error::WithdrawBelowMinimum)
        } else if above {
            Err(Error::WithdrawAboveMaximum)
        } else {
            Ok(to_ledger_scale(amount))
        }
    }
}

} // verus!
