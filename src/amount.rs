//! Fixed-point amounts: a decimal written as a mantissa and a scale, and its
//! value in units of one ten-thousandth once rounded to four places.

use vstd::prelude::*;

verus! {

/// The largest mantissa magnitude a decimal can hold (96 bits).
pub const MAX_MANTISSA: i128 = 79228162514264337593543950335;

/// The largest scale a decimal can hold.
pub const MAX_SCALE: u32 = 28;

/// Number of decimal places every amount is rounded to.
pub const PLACES: u32 = 4;

pub open spec fn pow10(n: nat) -> nat
    decreases n,
{
    if n == 0 {
        1
    } else {
        10 * pow10((n - 1) as nat)
    }
}

pub open spec fn abs(x: int) -> nat {
    if x < 0 {
        (-x) as nat
    } else {
        x as nat
    }
}

/// `a / d` rounded to the nearest integer, ties going to the even neighbour.
pub open spec fn half_even_quotient(a: nat, d: nat) -> nat {
    let q = a / d;
    let r = a % d;
    if 2 * r > d || (2 * r == d && q % 2 == 1) {
        q + 1
    } else {
        q
    }
}

/// Scale of `mantissa * 10^-scale` once rounded to `places` places.
pub open spec fn rounded_scale(scale: nat, places: nat) -> nat {
    if scale <= places {
        scale
    } else {
        places
    }
}

/// Mantissa of `mantissa * 10^-scale` once rounded to `places` places with
/// banker's rounding; the sign is kept and the magnitude is rounded.
pub open spec fn rounded_mantissa(mantissa: int, scale: nat, places: nat) -> int {
    if scale <= places {
        mantissa
    } else {
        let q = half_even_quotient(abs(mantissa), pow10((scale - places) as nat)) as int;
        if mantissa < 0 {
            -q
        } else {
            q
        }
    }
}

/// `mantissa * 10^-scale`, rounded to four places, counted in units of 10^-4.
pub open spec fn units_of(mantissa: int, scale: nat) -> int {
    rounded_mantissa(mantissa, scale, 4) * pow10((4 - rounded_scale(scale, 4)) as nat)
}

/// Relies on rust_decimal's `Decimal::round_dp`, which rounds to the given
/// number of places with banker's rounding and keeps a value that already has
/// no more places; `from_i128_with_scale`, `mantissa` and `scale` only convert.
/// `from_i128_with_scale` panics beyond 96 bits or a scale above 28.
#[verifier::external_body]
fn round_dp(mantissa: i128, scale: u32, places: u32) -> (r: (i128, u32))
    requires
        -MAX_MANTISSA <= mantissa <= MAX_MANTISSA,
        scale <= MAX_SCALE,
    ensures
        r.0 == rounded_mantissa(mantissa as int, scale as nat, places as nat),
        r.1 == rounded_scale(scale as nat, places as nat),
{
    let d = rust_decimal::Decimal::from_i128_with_scale(mantissa, scale).round_dp(places);
    (d.mantissa(), d.scale())
}

proof fn lemma_pow10_small()
    ensures
        pow10(0) == 1,
        pow10(1) == 10,
        pow10(2) == 100,
        pow10(3) == 1000,
        pow10(4) == 10000,
{
    reveal_with_fuel(pow10, 5);
}

proof fn lemma_pow10_at_least_ten(n: nat)
    requires
        n >= 1,
    ensures
        pow10(n) >= 10,
    decreases n,
{
    reveal_with_fuel(pow10, 2);
    if n > 1 {
        lemma_pow10_at_least_ten((n - 1) as nat);
        assert(pow10(n) == 10 * pow10((n - 1) as nat));
    }
}

proof fn lemma_half_even_quotient_bound(a: nat, d: nat)
    requires
        d >= 10,
    ensures
        half_even_quotient(a, d) <= a,
{
    let q = a / d;
    let r = a % d;
    assert(a == d * q + r) by (nonlinear_arith)
        requires
            d > 0,
            q == a / d,
            r == a % d,
    ;
    assert(0 <= r < d);
    assert(q * 10 <= a) by (nonlinear_arith)
        requires
            a == d * q + r,
            d >= 10,
            r >= 0,
            q >= 0,
    ;
    if a == 0 {
        assert(q == 0 && r == 0);
    }
}

proof fn lemma_rounded_mantissa_bound(mantissa: int, scale: nat)
    requires
        abs(mantissa) <= MAX_MANTISSA,
    ensures
        abs(rounded_mantissa(mantissa, scale, 4)) <= MAX_MANTISSA,
{
    if scale > 4 {
        lemma_pow10_at_least_ten((scale - 4) as nat);
        lemma_half_even_quotient_bound(abs(mantissa), pow10((scale - 4) as nat));
    }
}

/// A decimal amount as a mantissa and a scale: `mantissa * 10^-scale`.
#[derive(Clone, Copy, Debug, PartialEq, Eq)]
pub struct Amount {
    mantissa: i128,
    scale: u32,
}

impl Amount {
    #[verifier::type_invariant]
    spec fn inv(self) -> bool {
        &&& -MAX_MANTISSA <= self.mantissa <= MAX_MANTISSA
        &&& self.scale <= MAX_SCALE
    }

    pub closed spec fn spec_mantissa(self) -> int {
        self.mantissa as int
    }

    pub closed spec fn spec_scale(self) -> nat {
        self.scale as nat
    }

    /// The amount rounded to four places, in units of 10^-4.
    pub open spec fn spec_units(self) -> int {
        units_of(self.spec_mantissa(), self.spec_scale())
    }

    /// The amount `mantissa * 10^-scale`; `None` where a decimal cannot hold
    /// it (a mantissa beyond 96 bits, or a scale above 28).
    pub fn new(mantissa: i128, scale: u32) -> (r: Option<Amount>)
        ensures
            r is Some <==> (-MAX_MANTISSA <= mantissa <= MAX_MANTISSA && scale <= MAX_SCALE),
            r matches Some(a) ==> a.spec_mantissa() == mantissa && a.spec_scale() == scale,
    {
        if -MAX_MANTISSA <= mantissa && mantissa <= MAX_MANTISSA && scale <= MAX_SCALE {
            Some(Amount { mantissa, scale })
        } else {
            None
        }
    }

    pub fn mantissa(&self) -> (r: i128)
        ensures
            r == self.spec_mantissa(),
    {
        self.mantissa
    }

    pub fn scale(&self) -> (r: u32)
        ensures
            r == self.spec_scale(),
    {
        self.scale
    }

    /// The amount rounded to four places with banker's rounding, in units
    /// of 10^-4.
    pub fn units(&self) -> (r: i128)
        ensures
            r == self.spec_units(),
            -MAX_MANTISSA * 10000 <= r <= MAX_MANTISSA * 10000,
    {
        proof {
            use_type_invariant(self);
        }
        let (m, s) = round_dp(self.mantissa, self.scale, PLACES);
        proof {
            lemma_rounded_mantissa_bound(self.mantissa as int, self.scale as nat);
            lemma_pow10_small();
        }
        let factor: i128 = if s == 0 {
            10000
        } else if s == 1 {
            1000
        } else if s == 2 {
            100
        } else if s == 3 {
            10
        } else {
            1
        };
        assert(factor == pow10((4 - s) as nat));
        assert(-MAX_MANTISSA * 10000 <= m * factor <= MAX_MANTISSA * 10000) by (nonlinear_arith)
            requires
                -MAX_MANTISSA <= m <= MAX_MANTISSA,
                1 <= factor <= 10000,
        ;
        m * factor
    }
}

} // verus!
