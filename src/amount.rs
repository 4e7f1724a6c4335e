use vstd::arithmetic::div_mod::{lemma_div_multiples_vanish, lemma_mod_multiples_basic};
use vstd::prelude::*;

verus! {

/// Most decimal places an amount can have.
pub const MAX_SCALE: u32 = 28;

/// Largest magnitude of a mantissa: the largest 96-bit number.
pub const MANTISSA_MAX: i128 = 79228162514264337593543950335;

const MANTISSA_MAX_U: u128 = 79228162514264337593543950335;

/// `10^n`.
pub open spec fn pow10(n: nat) -> int
    decreases n,
{
    if n == 0 {
        1
    } else {
        10 * pow10((n - 1) as nat)
    }
}

/// `v`, counted in units of `10^-28`, written with `s` decimal places: the
/// mantissa `v / 10^(28 - s)` is whole and at most 96 bits in magnitude.
pub open spec fn fits_at(v: int, s: nat) -> bool {
    &&& s <= MAX_SCALE
    &&& v % pow10((MAX_SCALE - s) as nat) == 0
    &&& -MANTISSA_MAX <= v / pow10((MAX_SCALE - s) as nat) <= MANTISSA_MAX
}

/// `v`, counted in units of `10^-28`, can be held in an `Amount`.
pub open spec fn fits(v: int) -> bool {
    exists|s: nat| #[trigger] fits_at(v, s)
}

/// The integer with sign `neg` and magnitude `mag`.
pub open spec fn signed(neg: bool, mag: int) -> int {
    if neg {
        -mag
    } else {
        mag
    }
}

/// An exact decimal amount of money: `mantissa * 10^-scale`, with at most 28
/// places and a 96-bit mantissa. It is kept without trailing zeros, so two
/// amounts are equal exactly when their values are.
#[derive(Clone, Copy, Debug, PartialEq, Eq, Structural)]
pub struct Amount {
    mantissa: i128,
    scale: u32,
}

impl View for Amount {
    type V = int;

    /// The value in units of `10^-28`.
    closed spec fn view(&self) -> int {
        self.mantissa * pow10((MAX_SCALE - self.scale) as nat)
    }
}

proof fn lemma_pow10_positive(n: nat)
    ensures
        pow10(n) >= 1,
    decreases n,
{
    if n > 0 {
        lemma_pow10_positive((n - 1) as nat);
    }
}

proof fn lemma_pow10_add(a: nat, b: nat)
    ensures
        pow10(a + b) == pow10(a) * pow10(b),
    decreases a,
{
    if a > 0 {
        lemma_pow10_add((a - 1) as nat, b);
        assert(pow10(a + b) == 10 * pow10((a - 1 + b) as nat));
        let x = pow10((a - 1) as nat);
        let y = pow10(b);
        assert(10 * (x * y) == (10 * x) * y) by (nonlinear_arith);
    }
}

proof fn lemma_pow10_mono(a: nat, b: nat)
    requires
        a <= b,
    ensures
        pow10(a) <= pow10(b),
    decreases b,
{
    lemma_pow10_positive(b);
    if a < b {
        lemma_pow10_mono(a, (b - 1) as nat);
    }
}

/// With no trailing zero (or no places), a mantissa too large for 96 bits
/// means the value cannot be held at any scale.
proof fn lemma_not_fits(m: int, s: nat)
    requires
        s <= MAX_SCALE,
        s == 0 || m % 10 != 0,
        m > MANTISSA_MAX || m < -MANTISSA_MAX,
    ensures
        !fits(m * pow10((MAX_SCALE - s) as nat)),
{
    let v = m * pow10((MAX_SCALE - s) as nat);
    let p = pow10((MAX_SCALE - s) as nat);
    lemma_pow10_positive((MAX_SCALE - s) as nat);
    assert forall|t: nat| !#[trigger] fits_at(v, t) by {
        if t <= MAX_SCALE {
            let q = pow10((MAX_SCALE - t) as nat);
            lemma_pow10_positive((MAX_SCALE - t) as nat);
            if t >= s {
                let r = pow10((t - s) as nat);
                lemma_pow10_add((MAX_SCALE - t) as nat, (t - s) as nat);
                lemma_pow10_positive((t - s) as nat);
                assert(p == q * r);
                assert(v == q * (m * r)) by (nonlinear_arith)
                    requires
                        v == m * p,
                        p == q * r,
                ;
                lemma_div_multiples_vanish(m * r, q);
                assert(m * r > MANTISSA_MAX || m * r < -MANTISSA_MAX) by (nonlinear_arith)
                    requires
                        r >= 1,
                        m > MANTISSA_MAX || m < -MANTISSA_MAX,
                ;
            } else {
                let r = pow10((s - t) as nat);
                lemma_pow10_add((MAX_SCALE - s) as nat, (s - t) as nat);
                assert(q == p * r);
                assert(r == 10 * pow10((s - t - 1) as nat));
                if v % q == 0 {
                    let k = v / q;
                    vstd::arithmetic::div_mod::lemma_fundamental_div_mod(v, q);
                    assert(v == q * k);
                    assert(m == r * k) by (nonlinear_arith)
                        requires
                            v == m * p,
                            v == q * k,
                            q == p * r,
                            p >= 1,
                    ;
                    assert(m == 10 * (pow10((s - t - 1) as nat) * k)) by (nonlinear_arith)
                        requires
                            m == r * k,
                            r == 10 * pow10((s - t - 1) as nat),
                    ;
                    lemma_mod_multiples_basic(pow10((s - t - 1) as nat) * k, 10);
                }
            }
        }
    }
}

/// A mantissa of at most 96 bits can be held at its own scale.
proof fn lemma_fits(m: int, s: nat)
    requires
        s <= MAX_SCALE,
        -MANTISSA_MAX <= m <= MANTISSA_MAX,
    ensures
        fits(m * pow10((MAX_SCALE - s) as nat)),
{
    let p = pow10((MAX_SCALE - s) as nat);
    lemma_pow10_positive((MAX_SCALE - s) as nat);
    lemma_mod_multiples_basic(m, p);
    lemma_div_multiples_vanish(m, p);
    assert(m * p == p * m) by (nonlinear_arith);
    assert(fits_at(m * p, s));
}

/// Zero can be held.
pub proof fn lemma_zero_fits()
    ensures
        fits(0),
{
    lemma_fits(0, 0);
    assert(0 * pow10(28) == 0);
}

/// `10^n` for the scales an amount can have.
fn pow10_exec(n: u32) -> (r: i128)
    requires
        n <= MAX_SCALE,
    ensures
        r == pow10(n as nat),
{
    proof {
        reveal_with_fuel(pow10, 29);
        lemma_pow10_mono(n as nat, 28);
        assert(pow10(28) == 10000000000000000000000000000int);
    }
    let mut r: i128 = 1;
    let mut i: u32 = 0;
    while i < n
        invariant
            i <= n <= MAX_SCALE,
            r == pow10(i as nat),
            pow10(n as nat) <= 10000000000000000000000000000int,
        decreases n - i,
    {
        proof {
            lemma_pow10_mono((i + 1) as nat, n as nat);
            assert(pow10((i + 1) as nat) == 10 * pow10(i as nat));
            lemma_pow10_positive(i as nat);
        }
        r = r * 10;
        i = i + 1;
    }
    r
}

/// Sign and magnitude of `m`.
fn split(m: i128) -> (r: (bool, u128))
    ensures
        signed(r.0, r.1 as int) == m,
{
    if m < 0 {
        (true, ((-(m + 1)) as u128) + 1)
    } else {
        (false, m as u128)
    }
}

impl Amount {
    /// Within the limits and without trailing zeros.
    #[verifier::type_invariant]
    pub closed spec fn canonical(self) -> bool {
        &&& self.scale <= MAX_SCALE
        &&& -MANTISSA_MAX <= self.mantissa <= MANTISSA_MAX
        &&& self.scale == 0 || self.mantissa % 10 != 0
    }

    /// Every amount's value can be held; `use_type_invariant` gives the premise.
    pub proof fn lemma_in_range(self)
        requires
            self.canonical(),
        ensures
            fits(self@),
    {
        lemma_fits(self.mantissa as int, self.scale as nat);
    }

    /// The amount `signed(neg, mag) * 10^-scale`, without trailing zeros.
    fn from_sign_magnitude(neg: bool, mag: u128, scale: u32) -> (r: Option<Amount>)
        requires
            scale <= MAX_SCALE,
        ensures
            r is Some <==> fits(signed(neg, mag as int) * pow10((MAX_SCALE - scale) as nat)),
            r is Some ==> r->0@ == signed(neg, mag as int) * pow10(
                (MAX_SCALE - scale) as nat,
            ),
    {
        let ghost v = signed(neg, mag as int) * pow10((MAX_SCALE - scale) as nat);
        let mut m = mag;
        let mut s = scale;
        while s > 0 && m % 10 == 0
            invariant
                s <= scale <= MAX_SCALE,
                signed(neg, m as int) * pow10((MAX_SCALE - s) as nat) == v,
            decreases s,
        {
            proof {
                let p = pow10((MAX_SCALE - s) as nat);
                assert(pow10((MAX_SCALE - s + 1) as nat) == 10 * p);
                assert(m as int == 10 * (m / 10) as int);
                assert(signed(neg, m as int) * p == signed(neg, (m / 10) as int) * (10 * p))
                    by (nonlinear_arith)
                    requires
                        m as int == 10 * (m / 10) as int,
                ;
            }
            m = m / 10;
            s = s - 1;
        }
        proof {
            if s > 0 && signed(neg, m as int) % 10 == 0 {
                let k = signed(neg, m as int) / 10;
                assert(signed(neg, m as int) == 10 * k);
                assert(m as int == 10 * signed(neg, k));
                lemma_mod_multiples_basic(signed(neg, k), 10);
                assert(signed(neg, k) * 10 == 10 * signed(neg, k));
            }
        }
        if m > MANTISSA_MAX_U {
            proof {
                lemma_not_fits(signed(neg, m as int), s as nat);
            }
            None
        } else {
            let mi = m as i128;
            let mantissa = if neg {
                -mi
            } else {
                mi
            };
            proof {
                lemma_fits(mantissa as int, s as nat);
            }
            Some(Amount { mantissa, scale: s })
        }
    }

    /// The amount zero.
    pub fn zero() -> (r: Amount)
        ensures
            r@ == 0,
    {
        proof {
            assert(0 * pow10(28) == 0);
        }
        Amount { mantissa: 0, scale: 0 }
    }

    /// The amount `mantissa * 10^-scale`, if it has at most 28 places and can
    /// be held; trailing zeros do not count against the limits.
    pub fn from_parts(mantissa: i128, scale: u32) -> (r: Option<Amount>)
        ensures
            r is Some <==> scale <= MAX_SCALE && fits(
                mantissa * pow10((MAX_SCALE - scale) as nat),
            ),
            r is Some ==> r->0@ == mantissa * pow10((MAX_SCALE - scale) as nat),
    {
        if scale > MAX_SCALE {
            return None;
        }
        let (neg, mag) = split(mantissa);
        Amount::from_sign_magnitude(neg, mag, scale)
    }

    /// The mantissa, at the amount's own scale.
    pub fn mantissa(&self) -> (r: i128)
        ensures
            r * pow10((MAX_SCALE - self.places()) as nat) == self@,
    {
        self.mantissa
    }

    /// The number of decimal places the amount is written with.
    pub closed spec fn places(self) -> nat {
        self.scale as nat
    }

    /// The number of decimal places, at most 28.
    pub fn scale(&self) -> (r: u32)
        ensures
            r == self.places(),
            r <= MAX_SCALE,
    {
        proof {
            use_type_invariant(self);
        }
        self.scale
    }

    /// `-self`.
    pub fn negated(self) -> (r: Amount)
        ensures
            r@ == -self@,
    {
        proof {
            use_type_invariant(&self);
            if self.scale != 0 && (-self.mantissa) % 10 == 0 {
                let k = (-self.mantissa) / 10;
                assert(-self.mantissa == 10 * k);
                lemma_mod_multiples_basic(-k, 10);
                assert(self.mantissa == (-k) * 10);
            }
            let p = pow10((MAX_SCALE - self.scale) as nat);
            assert((-self.mantissa) * p == -(self.mantissa * p)) by (nonlinear_arith);
        }
        Amount { mantissa: -self.mantissa, scale: self.scale }
    }

    /// `self + other`, exactly, if the sum can be held.
    pub fn checked_add(self, other: Amount) -> (r: Option<Amount>)
        ensures
            r is Some <==> fits(self@ + other@),
            r is Some ==> r->0@ == self@ + other@,
    {
        proof {
            use_type_invariant(&self);
            use_type_invariant(&other);
        }
        let s = if self.scale >= other.scale {
            self.scale
        } else {
            other.scale
        };
        let pa = pow10_exec(s - self.scale);
        let pb = pow10_exec(s - other.scale);
        let ghost p = pow10((MAX_SCALE - s) as nat);
        let ghost exact = self.mantissa * pa + other.mantissa * pb;
        proof {
            lemma_pow10_add((MAX_SCALE - s) as nat, (s - self.scale) as nat);
            lemma_pow10_add((MAX_SCALE - s) as nat, (s - other.scale) as nat);
            lemma_pow10_positive((s - self.scale) as nat);
            lemma_pow10_positive((s - other.scale) as nat);
            assert(self@ + other@ == exact * p) by (nonlinear_arith)
                requires
                    self@ == self.mantissa * pow10((MAX_SCALE - self.scale) as nat),
                    other@ == other.mantissa * pow10((MAX_SCALE - other.scale) as nat),
                    pow10((MAX_SCALE - self.scale) as nat) == p * pa,
                    pow10((MAX_SCALE - other.scale) as nat) == p * pb,
                    exact == self.mantissa * pa + other.mantissa * pb,
            ;
            if self.scale != other.scale {
                Amount::lemma_last_digit(self, other, s);
            }
            Amount::lemma_rescale_facts(self, other, s, pa as int, pb as int);
        }
        let a = match self.mantissa.checked_mul(pa) {
            Some(a) => a,
            None => {
                proof {
                    lemma_not_fits(exact, s as nat);
                }
                return None;
            },
        };
        let b = match other.mantissa.checked_mul(pb) {
            Some(b) => b,
            None => {
                proof {
                    lemma_not_fits(exact, s as nat);
                }
                return None;
            },
        };
        let sum = match a.checked_add(b) {
            Some(sum) => sum,
            None => {
                proof {
                    lemma_not_fits(exact, s as nat);
                }
                return None;
            },
        };
        let (neg, mag) = split(sum);
        Amount::from_sign_magnitude(neg, mag, s)
    }

    /// Of two amounts at different scales, the sum written at the larger scale
    /// keeps the last digit of the finer one.
    proof fn lemma_last_digit(a: Amount, b: Amount, s: u32)
        requires
            a.canonical(),
            b.canonical(),
            a.scale != b.scale,
            s == if a.scale >= b.scale {
                a.scale
            } else {
                b.scale
            },
        ensures
            s > 0,
            (a.mantissa * pow10((s - a.scale) as nat) + b.mantissa * pow10((s - b.scale) as nat))
                % 10 != 0,
    {
        let pa = pow10((s - a.scale) as nat);
        let pb = pow10((s - b.scale) as nat);
        if a.scale < b.scale {
            assert(pb == 1);
            assert(pa == 10 * pow10((s - a.scale - 1) as nat));
            let x = a.mantissa * pow10((s - a.scale - 1) as nat);
            assert(a.mantissa * pa == 10 * x) by (nonlinear_arith)
                requires
                    pa == 10 * pow10((s - a.scale - 1) as nat),
                    x == a.mantissa * pow10((s - a.scale - 1) as nat),
            ;
            vstd::arithmetic::div_mod::lemma_mod_multiples_vanish(x, b.mantissa as int, 10);
        } else {
            assert(pa == 1);
            assert(pb == 10 * pow10((s - b.scale - 1) as nat));
            let x = b.mantissa * pow10((s - b.scale - 1) as nat);
            assert(b.mantissa * pb == 10 * x) by (nonlinear_arith)
                requires
                    pb == 10 * pow10((s - b.scale - 1) as nat),
                    x == b.mantissa * pow10((s - b.scale - 1) as nat),
            ;
            vstd::arithmetic::div_mod::lemma_mod_multiples_vanish(x, a.mantissa as int, 10);
        }
    }

    /// `self - other`, exactly, if the difference can be held.
    pub fn checked_sub(self, other: Amount) -> (r: Option<Amount>)
        ensures
            r is Some <==> fits(self@ - other@),
            r is Some ==> r->0@ == self@ - other@,
    {
        self.checked_add(other.negated())
    }

    /// True when `self` is at least `other`.
    pub fn covers(&self, other: &Amount) -> (r: bool)
        ensures
            r == (self@ >= other@),
    {
        proof {
            use_type_invariant(self);
            use_type_invariant(other);
        }
        let s = if self.scale >= other.scale {
            self.scale
        } else {
            other.scale
        };
        let pa = pow10_exec(s - self.scale);
        let pb = pow10_exec(s - other.scale);
        let ghost p = pow10((MAX_SCALE - s) as nat);
        proof {
            lemma_pow10_add((MAX_SCALE - s) as nat, (s - self.scale) as nat);
            lemma_pow10_add((MAX_SCALE - s) as nat, (s - other.scale) as nat);
            lemma_pow10_positive((MAX_SCALE - s) as nat);
            lemma_pow10_positive((s - self.scale) as nat);
            lemma_pow10_positive((s - other.scale) as nat);
            assert(self.mantissa > 0 <==> self.mantissa * pa > 0) by (nonlinear_arith)
                requires
                    pa >= 1,
            ;
            assert(other.mantissa < 0 <==> other.mantissa * pb < 0) by (nonlinear_arith)
                requires
                    pb >= 1,
            ;
            assert(self@ == (self.mantissa * pa) * p) by (nonlinear_arith)
                requires
                    self@ == self.mantissa * pow10((MAX_SCALE - self.scale) as nat),
                    pow10((MAX_SCALE - self.scale) as nat) == p * pa,
            ;
            assert(other@ == (other.mantissa * pb) * p) by (nonlinear_arith)
                requires
                    other@ == other.mantissa * pow10((MAX_SCALE - other.scale) as nat),
                    pow10((MAX_SCALE - other.scale) as nat) == p * pb,
            ;
        }
        match (self.mantissa.checked_mul(pa), other.mantissa.checked_mul(pb)) {
            (Some(a), Some(b)) => {
                proof {
                    Amount::lemma_scaled_order(a as int, b as int, p);
                }
                a >= b
            },
            (None, _) => {
                proof {
                    Amount::lemma_rescale_facts(*self, *other, s, pa as int, pb as int);
                    Amount::lemma_scaled_order(self.mantissa * pa, other.mantissa as int, p);
                }
                self.mantissa > 0
            },
            (_, None) => {
                proof {
                    Amount::lemma_rescale_facts(*self, *other, s, pa as int, pb as int);
                    Amount::lemma_scaled_order(self.mantissa as int, other.mantissa * pb, p);
                }
                other.mantissa < 0
            },
        }
    }

    /// Only the amount with fewer places is rescaled, so only its product can
    /// leave 128 bits, and then its magnitude dwarfs the other mantissa.
    proof fn lemma_rescale_facts(a: Amount, b: Amount, s: u32, pa: int, pb: int)
        requires
            a.canonical(),
            b.canonical(),
            s == if a.scale >= b.scale {
                a.scale
            } else {
                b.scale
            },
            pa == pow10((s - a.scale) as nat),
            pb == pow10((s - b.scale) as nat),
        ensures
            a.mantissa * pa > i128::MAX || a.mantissa * pa < i128::MIN ==> b.mantissa * pb
                == b.mantissa && a.scale != b.scale,
            b.mantissa * pb > i128::MAX || b.mantissa * pb < i128::MIN ==> a.mantissa * pa
                == a.mantissa && a.scale != b.scale,
            a.scale == b.scale ==> a.mantissa * pa == a.mantissa && b.mantissa * pb
                == b.mantissa,
    {
        if s == a.scale {
            assert(pa == 1);
            assert(a.mantissa * pa == a.mantissa);
        }
        if s == b.scale {
            assert(pb == 1);
            assert(b.mantissa * pb == b.mantissa);
        }
    }

    proof fn lemma_scaled_order(a: int, b: int, p: int)
        requires
            p >= 1,
        ensures
            (a * p >= b * p) == (a >= b),
    {
        if a >= b {
            assert(a * p >= b * p) by (nonlinear_arith)
                requires
                    a >= b,
                    p >= 1,
            ;
        } else {
            assert(a * p < b * p) by (nonlinear_arith)
                requires
                    a < b,
                    p >= 1,
            ;
        }
    }
}

} // verus!
