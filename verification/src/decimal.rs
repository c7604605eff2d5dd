//! Exact base-10 decimal values for prices and sizes.
//!
//! Every value is stored in fixed point as a count of `10^-19` units, so
//! comparison is plain integer comparison and subtraction is exact: there is
//! no binary floating point anywhere in the model.

use vstd::prelude::*;

verus! {

/// Number of base-10 fractional digits carried by every value.
pub const FRACTIONAL_DIGITS: u32 = 19;

/// `10^n`, the scale factor between a mantissa and its fixed-point units.
pub open spec fn pow10(n: nat) -> nat
    decreases n,
{
    if n == 0 {
        1
    } else {
        10 * pow10((n - 1) as nat)
    }
}

/// `pow10` grows with its argument and stays within `10^19` for arguments
/// up to `FRACTIONAL_DIGITS`.
pub proof fn lemma_pow10_bound(n: nat)
    requires
        n <= FRACTIONAL_DIGITS,
    ensures
        pow10(n) <= pow10(FRACTIONAL_DIGITS as nat),
        pow10(FRACTIONAL_DIGITS as nat) == 10_000_000_000_000_000_000,
{
    reveal_with_fuel(pow10, 21);
    assert(pow10(FRACTIONAL_DIGITS as nat) == 10_000_000_000_000_000_000);
    lemma_pow10_monotonic(n, FRACTIONAL_DIGITS as nat);
}

/// `pow10` is monotonic.
pub proof fn lemma_pow10_monotonic(m: nat, n: nat)
    requires
        m <= n,
    ensures
        pow10(m) <= pow10(n),
    decreases n,
{
    if m < n {
        lemma_pow10_monotonic(m, (n - 1) as nat);
        assert(pow10(n) == 10 * pow10((n - 1) as nat));
        assert(pow10((n - 1) as nat) >= 1) by {
            lemma_pow10_pos((n - 1) as nat);
        }
    }
}

/// `pow10` is always positive.
pub proof fn lemma_pow10_pos(n: nat)
    ensures
        pow10(n) >= 1,
    decreases n,
{
    if n > 0 {
        lemma_pow10_pos((n - 1) as nat);
    }
}

/// A non-negative exact decimal, stored as `units` multiples of `10^-19`.
///
/// The mathematical value is `units / 10^19`; the view of a `Decimal` is the
/// integer `units`, so two decimals are equal exactly when their values are.
#[derive(Clone, Copy, Debug, PartialEq, Eq, Structural)]
pub struct Decimal {
    /// The value in multiples of `10^-19`.
    pub units: u128,
}

impl View for Decimal {
    type V = int;

    open spec fn view(&self) -> int {
        self.units as int
    }
}

impl Decimal {
    /// Builds the value `mantissa * 10^-scale`, e.g. `new(83, 2)` is `0.83`.
    pub fn new(mantissa: u64, scale: u32) -> (d: Decimal)
        requires
            scale <= FRACTIONAL_DIGITS,
        ensures
            d@ == mantissa * pow10((FRACTIONAL_DIGITS - scale) as nat),
    {
        let mut units: u128 = mantissa as u128;
        let mut digits: u32 = scale;
        proof {
            assert(pow10((digits - scale) as nat) == 1);
            assert(units == mantissa * pow10((digits - scale) as nat)) by (nonlinear_arith)
                requires
                    units == mantissa,
                    pow10((digits - scale) as nat) == 1,
            ;
        }
        while digits < FRACTIONAL_DIGITS
            invariant
                scale <= digits <= FRACTIONAL_DIGITS,
                units == mantissa * pow10((digits - scale) as nat),
            decreases FRACTIONAL_DIGITS - digits,
        {
            proof {
                lemma_pow10_bound((digits + 1 - scale) as nat);
                assert(pow10((digits + 1 - scale) as nat) == 10 * pow10((digits - scale) as nat));
                assert(mantissa * (10 * pow10((digits - scale) as nat)) <= u64::MAX
                    * 10_000_000_000_000_000_000) by (nonlinear_arith)
                    requires
                        10 * pow10((digits - scale) as nat) <= 10_000_000_000_000_000_000,
                        mantissa <= u64::MAX,
                ;
                assert(units * 10 == mantissa * pow10((digits + 1 - scale) as nat))
                    by (nonlinear_arith)
                    requires
                        units == mantissa * pow10((digits - scale) as nat),
                        pow10((digits + 1 - scale) as nat) == 10 * pow10(
                            (digits - scale) as nat,
                        ),
                ;
            }
            units = units * 10;
            digits = digits + 1;
        }
        Decimal { units }
    }

    /// The zero value.
    pub fn zero() -> (d: Decimal)
        ensures
            d@ == 0,
    {
        Decimal { units: 0 }
    }

    /// Exact comparison: `self <= other` as mathematical values.
    pub fn le(&self, other: &Decimal) -> (r: bool)
        ensures
            r == (self@ <= other@),
    {
        self.units <= other.units
    }

    /// Exact comparison: `self < other` as mathematical values.
    pub fn lt(&self, other: &Decimal) -> (r: bool)
        ensures
            r == (self@ < other@),
    {
        self.units < other.units
    }

    /// Exact subtraction `self - other`; the result may be negative.
    pub fn signed_diff(&self, other: &Decimal) -> (r: SignedDecimal)
        ensures
            r@ == self@ - other@,
            r.wf(),
    {
        if self.units >= other.units {
            SignedDecimal { negative: false, units: self.units - other.units }
        } else {
            SignedDecimal { negative: true, units: other.units - self.units }
        }
    }
}

/// An exact decimal with a sign, used for the spread of a book whose best
/// bid may exceed its best ask. Stored like [`Decimal`], in `10^-19` units.
#[derive(Clone, Copy, Debug, PartialEq, Eq, Structural)]
pub struct SignedDecimal {
    /// Whether the value is below zero.
    pub negative: bool,
    /// The magnitude in multiples of `10^-19`.
    pub units: u128,
}

impl View for SignedDecimal {
    type V = int;

    open spec fn view(&self) -> int {
        if self.negative {
            -(self.units as int)
        } else {
            self.units as int
        }
    }
}

impl SignedDecimal {
    /// Zero has a single representation: it is never marked negative.
    pub open spec fn wf(self) -> bool {
        self.units == 0 ==> !self.negative
    }

    /// Builds `mantissa * 10^-scale`, negated when `negative` is set;
    /// e.g. `new(false, 2, 2)` is `0.02`.
    pub fn new(negative: bool, mantissa: u64, scale: u32) -> (d: SignedDecimal)
        requires
            scale <= FRACTIONAL_DIGITS,
        ensures
            d@ == if negative {
                -(mantissa * pow10((FRACTIONAL_DIGITS - scale) as nat))
            } else {
                mantissa * pow10((FRACTIONAL_DIGITS - scale) as nat)
            },
            d.wf(),
    {
        let magnitude = Decimal::new(mantissa, scale);
        proof {
            lemma_pow10_pos((FRACTIONAL_DIGITS - scale) as nat);
        }
        if magnitude.units == 0 {
            SignedDecimal { negative: false, units: 0 }
        } else {
            SignedDecimal { negative, units: magnitude.units }
        }
    }
}

} // verus!
