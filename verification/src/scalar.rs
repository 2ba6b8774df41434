//! The numeric domain of expression values: a decimal fixed-point number
//! (six fractional digits) with saturation at a fixed magnitude bound and an
//! explicit not-a-number value. Undefined operations (division by zero,
//! remainder by zero, the square root of a negative number) yield `Nan`, and
//! every operation on a `Nan` operand yields `Nan` again.

use vstd::prelude::*;

verus! {

/// A value `Num(v)` stands for the real number `v / SCALE`.
pub const SCALE: i64 = 1_000_000;

/// Stored magnitudes never exceed this bound (a real magnitude of one
/// million); arithmetic saturates here instead of overflowing.
pub const MAX_MAG: i64 = 1_000_000_000_000;

/// 2 * pi in fixed-point units.
pub const TWO_PI: i64 = 6_283_185;

/// pi in fixed-point units; `TWO_PI` is kept at exactly twice this value so
/// that range reduction splits `[0, TWO_PI)` into two equal halves.
pub const PI_FP: i64 = 3_141_592;

/// pi / 2, rounded toward zero, in fixed-point units.
pub const HALF_PI: i64 = 1_570_796;

/// A multiple of `TWO_PI` that is at least `MAX_MAG + 4 * SCALE`; adding it
/// makes any angle the trigonometric functions accept non-negative without
/// changing it modulo `TWO_PI`.
pub const PERIOD_SHIFT: i64 = 6_283_185 * 159_156;

#[derive(Clone, Copy, Debug, PartialEq, Eq, Structural)]
pub enum Scalar {
    Nan,
    Num(i64),
}

pub open spec fn clamp_mag(x: int) -> int {
    if x > MAX_MAG as int {
        MAX_MAG as int
    } else if x < -(MAX_MAG as int) {
        -(MAX_MAG as int)
    } else {
        x
    }
}

pub open spec fn abs_int(x: int) -> int {
    if x < 0 {
        -x
    } else {
        x
    }
}

impl Scalar {
    /// Every stored number stays within the saturation bound.
    pub open spec fn wf(self) -> bool {
        match self {
            Scalar::Nan => true,
            Scalar::Num(v) => -MAX_MAG <= v <= MAX_MAG,
        }
    }

    pub open spec fn is_nan(self) -> bool {
        self is Nan
    }

    pub open spec fn spec_add(self, other: Scalar) -> Scalar {
        match (self, other) {
            (Scalar::Num(x), Scalar::Num(y)) => Scalar::Num(clamp_mag(x + y) as i64),
            _ => Scalar::Nan,
        }
    }

    pub open spec fn spec_sub(self, other: Scalar) -> Scalar {
        match (self, other) {
            (Scalar::Num(x), Scalar::Num(y)) => Scalar::Num(clamp_mag(x - y) as i64),
            _ => Scalar::Nan,
        }
    }

    /// The product of the magnitudes, rescaled with truncation, then clamped;
    /// the sign is negative exactly when the factors' signs differ.
    pub open spec fn spec_mul(self, other: Scalar) -> Scalar {
        match (self, other) {
            (Scalar::Num(x), Scalar::Num(y)) => {
                let m = clamp_mag(abs_int(x as int) * abs_int(y as int) / (SCALE as int));
                Scalar::Num((if (x < 0) != (y < 0) { -m } else { m }) as i64)
            },
            _ => Scalar::Nan,
        }
    }

    /// Division by zero is undefined and yields `Nan`.
    pub open spec fn spec_div(self, other: Scalar) -> Scalar {
        match (self, other) {
            (Scalar::Num(x), Scalar::Num(y)) => {
                if y == 0 {
                    Scalar::Nan
                } else {
                    let m = clamp_mag(abs_int(x as int) * (SCALE as int) / abs_int(y as int));
                    Scalar::Num((if (x < 0) != (y < 0) { -m } else { m }) as i64)
                }
            },
            _ => Scalar::Nan,
        }
    }

    /// The remainder after truncated division: the magnitude is the remainder
    /// of the magnitudes and the sign is the dividend's sign.
    pub open spec fn spec_rem(self, other: Scalar) -> Scalar {
        match (self, other) {
            (Scalar::Num(x), Scalar::Num(y)) => {
                if y == 0 {
                    Scalar::Nan
                } else {
                    let m = abs_int(x as int) % abs_int(y as int);
                    Scalar::Num((if x < 0 { -m } else { m }) as i64)
                }
            },
            _ => Scalar::Nan,
        }
    }

    pub open spec fn spec_abs(self) -> Scalar {
        match self {
            Scalar::Num(x) => Scalar::Num(abs_int(x as int) as i64),
            Scalar::Nan => Scalar::Nan,
        }
    }

    /// The square root of a negative number is undefined and yields `Nan`;
    /// otherwise the result is the integer square root of the rescaled
    /// magnitude (the floor of the exact root).
    pub open spec fn spec_sqrt(self) -> Scalar {
        match self {
            Scalar::Num(x) => {
                if x < 0 {
                    Scalar::Nan
                } else {
                    Scalar::Num(spec_isqrt((x * SCALE) as nat) as i64)
                }
            },
            Scalar::Nan => Scalar::Nan,
        }
    }

    pub open spec fn spec_sin(self) -> Scalar {
        match self {
            Scalar::Num(x) => Scalar::Num(spec_sin_units(x as int) as i64),
            Scalar::Nan => Scalar::Nan,
        }
    }

    pub open spec fn spec_cos(self) -> Scalar {
        match self {
            Scalar::Num(x) => Scalar::Num(spec_sin_units(x + HALF_PI) as i64),
            Scalar::Nan => Scalar::Nan,
        }
    }

    /// The quotient of sine by cosine; where the cosine lands on exactly
    /// zero the tangent is undefined and yields `Nan`.
    pub open spec fn spec_tan(self) -> Scalar {
        match self {
            Scalar::Num(x) => {
                let s = spec_sin_units(x as int);
                let c = spec_sin_units(x + HALF_PI);
                if c == 0 {
                    Scalar::Nan
                } else {
                    let m = clamp_mag(abs_int(s) * (SCALE as int) / abs_int(c));
                    Scalar::Num((if (s < 0) != (c < 0) { -m } else { m }) as i64)
                }
            },
            Scalar::Nan => Scalar::Nan,
        }
    }

    /// Ordering comparisons are false whenever either side is `Nan`.
    pub open spec fn spec_gt(self, other: Scalar) -> bool {
        match (self, other) {
            (Scalar::Num(x), Scalar::Num(y)) => x > y,
            _ => false,
        }
    }

    pub open spec fn spec_lt(self, other: Scalar) -> bool {
        match (self, other) {
            (Scalar::Num(x), Scalar::Num(y)) => x < y,
            _ => false,
        }
    }

    pub open spec fn spec_ge(self, other: Scalar) -> bool {
        match (self, other) {
            (Scalar::Num(x), Scalar::Num(y)) => x >= y,
            _ => false,
        }
    }

    pub open spec fn spec_le(self, other: Scalar) -> bool {
        match (self, other) {
            (Scalar::Num(x), Scalar::Num(y)) => x <= y,
            _ => false,
        }
    }

    /// Equality is exact; it is false whenever either side is `Nan`.
    pub open spec fn spec_eq(self, other: Scalar) -> bool {
        match (self, other) {
            (Scalar::Num(x), Scalar::Num(y)) => x == y,
            _ => false,
        }
    }

    /// The negation of `spec_eq`; in particular `Nan` is unequal to
    /// everything, itself included.
    pub open spec fn spec_ne(self, other: Scalar) -> bool {
        !self.spec_eq(other)
    }

    /// The defensive clamp applied by the optimizer: `Nan` becomes zero.
    pub open spec fn spec_nan_clamp(self) -> Scalar {
        match self {
            Scalar::Nan => Scalar::Num(0),
            Scalar::Num(v) => Scalar::Num(v),
        }
    }
}

/// The integer square root: the largest `r` with `r * r <= n`, defined by
/// counting up from the root of `n - 1`.
pub open spec fn spec_isqrt(n: nat) -> nat
    decreases n,
{
    if n == 0 {
        0
    } else {
        let r = spec_isqrt((n - 1) as nat);
        if (r + 1) * (r + 1) <= n {
            r + 1
        } else {
            r
        }
    }
}

pub proof fn lemma_isqrt_bounds(n: nat)
    ensures
        spec_isqrt(n) * spec_isqrt(n) <= n,
        n < (spec_isqrt(n) + 1) * (spec_isqrt(n) + 1),
    decreases n,
{
    if n > 0 {
        lemma_isqrt_bounds((n - 1) as nat);
        let r = spec_isqrt((n - 1) as nat);
        assert(r * r <= n - 1);
        assert(n - 1 < (r + 1) * (r + 1));
        if (r + 1) * (r + 1) <= n {
            assert(spec_isqrt(n) == r + 1);
            assert(spec_isqrt(n) * spec_isqrt(n) <= n);
            assert(n < (r + 2) * (r + 2)) by (nonlinear_arith)
                requires
                    (n as int) - 1 < (r + 1) * (r + 1),
            ;
            assert(n < (spec_isqrt(n) + 1) * (spec_isqrt(n) + 1));
        } else {
            assert(spec_isqrt(n) == r);
            assert(spec_isqrt(n) * spec_isqrt(n) <= n);
            assert(n < (spec_isqrt(n) + 1) * (spec_isqrt(n) + 1));
        }
    } else {
        assert(spec_isqrt(n) == 0);
        assert(n < (spec_isqrt(n) + 1) * (spec_isqrt(n) + 1)) by (nonlinear_arith)
            requires
                n == 0,
                spec_isqrt(n) == 0,
        ;
    }
}

/// Any value in the square-root bracket equals `spec_isqrt`.
pub proof fn lemma_isqrt_unique(n: nat, r: nat)
    requires
        r * r <= n,
        n < (r + 1) * (r + 1),
    ensures
        r == spec_isqrt(n),
{
    lemma_isqrt_bounds(n);
    let s = spec_isqrt(n);
    assert(r == s) by (nonlinear_arith)
        requires
            r * r <= n,
            n < (r + 1) * (r + 1),
            s * s <= n,
            n < (s + 1) * (s + 1),
    ;
}

/// Bhaskara's rational approximation of the sine over `[0, PI_FP]`, in
/// fixed-point units: `16 t (pi - t) * SCALE / (5 pi^2 - 4 t (pi - t))`.
pub open spec fn spec_bhaskara(t: int) -> int {
    16 * t * (PI_FP - t) * SCALE / (5 * PI_FP * PI_FP - 4 * t * (PI_FP - t))
}

/// The sine of an angle given in fixed-point units: the angle is reduced
/// modulo `TWO_PI` into `[0, TWO_PI)`, the first half-period uses the
/// approximation directly and the second uses its negation.
pub open spec fn spec_sin_units(x: int) -> int {
    let m = x % (TWO_PI as int);
    if m < PI_FP {
        spec_bhaskara(m)
    } else {
        -spec_bhaskara(m - PI_FP)
    }
}

impl Scalar {
    /// A whole number of units, saturated to the representable range.
    pub fn from_units(i: i64) -> (r: Scalar)
        ensures
            r == Scalar::Num(clamp_mag((i as int) * (SCALE as int)) as i64),
            r.wf(),
    {
        if i >= 1_000_000 {
            Scalar::Num(MAX_MAG)
        } else if i <= -1_000_000 {
            Scalar::Num(-MAX_MAG)
        } else {
            proof {
                assert((i as int) * (SCALE as int) < MAX_MAG as int) by (nonlinear_arith)
                    requires
                        -1_000_000 < i as int,
                        (i as int) < 1_000_000,
                ;
                assert(-(MAX_MAG as int) < (i as int) * (SCALE as int)) by (nonlinear_arith)
                    requires
                        -1_000_000 < i as int,
                        (i as int) < 1_000_000,
                ;
            }
            Scalar::Num(i * SCALE)
        }
    }

    /// A raw fixed-point value (`v` millionths), saturated into range.
    pub fn from_micros(v: i64) -> (r: Scalar)
        ensures
            r == Scalar::Num(clamp_mag(v as int) as i64),
            r.wf(),
    {
        if v > MAX_MAG {
            Scalar::Num(MAX_MAG)
        } else if v < -MAX_MAG {
            Scalar::Num(-MAX_MAG)
        } else {
            Scalar::Num(v)
        }
    }

    pub fn nan() -> (r: Scalar)
        ensures
            r == Scalar::Nan,
    {
        Scalar::Nan
    }

    pub fn check_nan(self) -> (r: bool)
        ensures
            r == self.is_nan(),
    {
        match self {
            Scalar::Nan => true,
            Scalar::Num(_) => false,
        }
    }

    pub fn nan_clamp(self) -> (r: Scalar)
        requires
            self.wf(),
        ensures
            r == self.spec_nan_clamp(),
            r.wf(),
    {
        match self {
            Scalar::Nan => Scalar::Num(0),
            Scalar::Num(v) => Scalar::Num(v),
        }
    }

    pub fn add(self, other: Scalar) -> (r: Scalar)
        requires
            self.wf(),
            other.wf(),
        ensures
            r == self.spec_add(other),
            r.wf(),
    {
        match (self, other) {
            (Scalar::Num(x), Scalar::Num(y)) => {
                let s = x + y;
                Scalar::Num(clamp_exec(s))
            },
            _ => Scalar::Nan,
        }
    }

    pub fn sub(self, other: Scalar) -> (r: Scalar)
        requires
            self.wf(),
            other.wf(),
        ensures
            r == self.spec_sub(other),
            r.wf(),
    {
        match (self, other) {
            (Scalar::Num(x), Scalar::Num(y)) => {
                let s = x - y;
                Scalar::Num(clamp_exec(s))
            },
            _ => Scalar::Nan,
        }
    }

    pub fn mul(self, other: Scalar) -> (r: Scalar)
        requires
            self.wf(),
            other.wf(),
        ensures
            r == self.spec_mul(other),
            r.wf(),
    {
        match (self, other) {
            (Scalar::Num(x), Scalar::Num(y)) => {
                let ax = mag_u64(x);
                let ay = mag_u64(y);
                proof {
                    assert((ax as int) * (ay as int) <= (MAX_MAG as int) * (MAX_MAG as int))
                        by (nonlinear_arith)
                        requires
                            ax <= MAX_MAG as u64,
                            ay <= MAX_MAG as u64,
                    ;
                }
                let p: u128 = (ax as u128) * (ay as u128);
                let q: u128 = p / (SCALE as u128);
                assert(q == abs_int(x as int) * abs_int(y as int) / (SCALE as int));
                let m = clamp_u128(q);
                Scalar::Num(apply_sign(m, (x < 0) != (y < 0)))
            },
            _ => Scalar::Nan,
        }
    }

    pub fn div(self, other: Scalar) -> (r: Scalar)
        requires
            self.wf(),
            other.wf(),
        ensures
            r == self.spec_div(other),
            r.wf(),
    {
        match (self, other) {
            (Scalar::Num(x), Scalar::Num(y)) => {
                if y == 0 {
                    Scalar::Nan
                } else {
                    let ax = mag_u64(x);
                    let ay = mag_u64(y);
                    let p: u128 = (ax as u128) * (SCALE as u128);
                    let q: u128 = p / (ay as u128);
                    assert(q == abs_int(x as int) * (SCALE as int) / abs_int(y as int));
                    let m = clamp_u128(q);
                    Scalar::Num(apply_sign(m, (x < 0) != (y < 0)))
                }
            },
            _ => Scalar::Nan,
        }
    }

    pub fn rem(self, other: Scalar) -> (r: Scalar)
        requires
            self.wf(),
            other.wf(),
        ensures
            r == self.spec_rem(other),
            r.wf(),
    {
        match (self, other) {
            (Scalar::Num(x), Scalar::Num(y)) => {
                if y == 0 {
                    Scalar::Nan
                } else {
                    let ax = mag_u64(x);
                    let ay = mag_u64(y);
                    let m: u64 = ax % ay;
                    Scalar::Num(apply_sign(m, x < 0))
                }
            },
            _ => Scalar::Nan,
        }
    }

    pub fn abs(self) -> (r: Scalar)
        requires
            self.wf(),
        ensures
            r == self.spec_abs(),
            r.wf(),
    {
        match self {
            Scalar::Num(x) => {
                let m = mag_u64(x);
                Scalar::Num(m as i64)
            },
            Scalar::Nan => Scalar::Nan,
        }
    }

    pub fn sqrt(self) -> (r: Scalar)
        requires
            self.wf(),
        ensures
            r == self.spec_sqrt(),
            r.wf(),
    {
        match self {
            Scalar::Num(x) => {
                if x < 0 {
                    Scalar::Nan
                } else {
                    let n: u64 = (x as u64) * (SCALE as u64);
                    let root = isqrt_u64(n);
                    proof {
                        lemma_isqrt_bounds(n as nat);
                        assert(spec_isqrt(n as nat) <= 1_000_000_000) by (nonlinear_arith)
                            requires
                                spec_isqrt(n as nat) * spec_isqrt(n as nat) <= n as nat,
                                n as nat <= 1_000_000_000_000_000_000,
                        ;
                    }
                    Scalar::Num(root as i64)
                }
            },
            Scalar::Nan => Scalar::Nan,
        }
    }

    pub fn sin(self) -> (r: Scalar)
        requires
            self.wf(),
        ensures
            r == self.spec_sin(),
            r.wf(),
    {
        match self {
            Scalar::Num(x) => Scalar::Num(sin_units(x)),
            Scalar::Nan => Scalar::Nan,
        }
    }

    pub fn cos(self) -> (r: Scalar)
        requires
            self.wf(),
        ensures
            r == self.spec_cos(),
            r.wf(),
    {
        match self {
            Scalar::Num(x) => Scalar::Num(sin_units(x + HALF_PI)),
            Scalar::Nan => Scalar::Nan,
        }
    }

    pub fn tan(self) -> (r: Scalar)
        requires
            self.wf(),
        ensures
            r == self.spec_tan(),
            r.wf(),
    {
        match self {
            Scalar::Num(x) => {
                let s = sin_units(x);
                let c = sin_units(x + HALF_PI);
                if c == 0 {
                    Scalar::Nan
                } else {
                    let am = mag_u64_small(s);
                    let ac = mag_u64_small(c);
                    let p: u128 = (am as u128) * (SCALE as u128);
                    let q: u128 = p / (ac as u128);
                    assert(q == abs_int(s as int) * (SCALE as int) / abs_int(c as int));
                    let m = clamp_u128(q);
                    Scalar::Num(apply_sign(m, (s < 0) != (c < 0)))
                }
            },
            Scalar::Nan => Scalar::Nan,
        }
    }

    pub fn gt(self, other: Scalar) -> (r: bool)
        ensures
            r == self.spec_gt(other),
    {
        match (self, other) {
            (Scalar::Num(x), Scalar::Num(y)) => x > y,
            _ => false,
        }
    }

    pub fn lt(self, other: Scalar) -> (r: bool)
        ensures
            r == self.spec_lt(other),
    {
        match (self, other) {
            (Scalar::Num(x), Scalar::Num(y)) => x < y,
            _ => false,
        }
    }

    pub fn ge(self, other: Scalar) -> (r: bool)
        ensures
            r == self.spec_ge(other),
    {
        match (self, other) {
            (Scalar::Num(x), Scalar::Num(y)) => x >= y,
            _ => false,
        }
    }

    pub fn le(self, other: Scalar) -> (r: bool)
        ensures
            r == self.spec_le(other),
    {
        match (self, other) {
            (Scalar::Num(x), Scalar::Num(y)) => x <= y,
            _ => false,
        }
    }

    pub fn eq_val(self, other: Scalar) -> (r: bool)
        ensures
            r == self.spec_eq(other),
    {
        match (self, other) {
            (Scalar::Num(x), Scalar::Num(y)) => x == y,
            _ => false,
        }
    }

    pub fn ne_val(self, other: Scalar) -> (r: bool)
        ensures
            r == self.spec_ne(other),
    {
        !self.eq_val(other)
    }
}

/// Saturate an intermediate sum into the representable range.
fn clamp_exec(x: i64) -> (r: i64)
    ensures
        r as int == clamp_mag(x as int),
{
    if x > MAX_MAG {
        MAX_MAG
    } else if x < -MAX_MAG {
        -MAX_MAG
    } else {
        x
    }
}

/// The magnitude of an in-range value, as an unsigned integer.
fn mag_u64(x: i64) -> (r: u64)
    requires
        -MAX_MAG <= x <= MAX_MAG,
    ensures
        r as int == abs_int(x as int),
        r <= MAX_MAG as u64,
{
    if x < 0 {
        (0 - x) as u64
    } else {
        x as u64
    }
}

/// The magnitude of a value bounded by one unit (used for sine and cosine
/// outputs, which never exceed `SCALE`).
fn mag_u64_small(x: i64) -> (r: u64)
    requires
        -SCALE <= x <= SCALE,
    ensures
        r as int == abs_int(x as int),
        r <= SCALE as u64,
{
    if x < 0 {
        (0 - x) as u64
    } else {
        x as u64
    }
}

/// Saturate an unsigned intermediate into the representable magnitude.
fn clamp_u128(q: u128) -> (r: u64)
    ensures
        r as int == clamp_mag(q as int),
        r <= MAX_MAG as u64,
{
    if q > MAX_MAG as u128 {
        MAX_MAG as u64
    } else {
        q as u64
    }
}

/// Attach a sign to a clamped magnitude.
fn apply_sign(m: u64, neg: bool) -> (r: i64)
    requires
        m <= MAX_MAG as u64,
    ensures
        r as int == if neg {
            -(m as int)
        } else {
            m as int
        },
        -MAX_MAG <= r <= MAX_MAG,
{
    if neg {
        0 - (m as i64)
    } else {
        m as i64
    }
}

/// The integer square root by binary search over the root.
fn isqrt_u64(n: u64) -> (r: u64)
    ensures
        r as nat == spec_isqrt(n as nat),
{
    let mut lo: u64 = 0;
    let mut hi: u64 = 4_294_967_296;
    // Invariant: lo * lo <= n < hi * hi.
    assert((4_294_967_296u64 as int) * (4_294_967_296u64 as int) > u64::MAX as int)
        by (nonlinear_arith);
    while hi - lo > 1
        invariant
            lo < hi,
            (lo as int) * (lo as int) <= n as int,
            (n as int) < (hi as int) * (hi as int),
            hi <= 4_294_967_296,
        decreases hi - lo,
    {
        let mid = lo + (hi - lo) / 2;
        proof {
            assert((mid as int) * (mid as int) <= 4_294_967_296 * 4_294_967_296)
                by (nonlinear_arith)
                requires
                    mid <= 4_294_967_296u64,
            ;
        }
        let sq: u128 = (mid as u128) * (mid as u128);
        if sq <= n as u128 {
            lo = mid;
        } else {
            hi = mid;
        }
    }
    proof {
        lemma_isqrt_unique(n as nat, lo as nat);
    }
    lo
}

/// The sine over fixed-point units, with range reduction into `[0, TWO_PI)`
/// done by shifting into the non-negative range first.
fn sin_units(x: i64) -> (r: i64)
    requires
        -MAX_MAG <= x <= MAX_MAG + 4 * SCALE,
    ensures
        r as int == spec_sin_units(x as int),
        -SCALE <= r <= SCALE,
{
    let shifted: u64 = (x + PERIOD_SHIFT) as u64;
    let m: u64 = shifted % (TWO_PI as u64);
    proof {
        vstd::arithmetic::div_mod::lemma_mod_multiples_vanish(
            159_156,
            x as int,
            TWO_PI as int,
        );
    }
    if m < PI_FP as u64 {
        bhaskara(m)
    } else {
        let b = bhaskara(m - PI_FP as u64);
        0 - b
    }
}

/// Bhaskara's approximation on `[0, PI_FP]`, evaluated in unsigned wide
/// arithmetic; the quotient never exceeds `SCALE`.
fn bhaskara(t: u64) -> (r: i64)
    requires
        t <= PI_FP as u64,
    ensures
        r as int == spec_bhaskara(t as int),
        0 <= r <= SCALE,
{
    proof {
        assert((t as int) * (PI_FP as int - t as int) <= (PI_FP as int) * (PI_FP as int))
            by (nonlinear_arith)
            requires
                0 <= t,
                (t as int) <= PI_FP as int,
        ;
    }
    let a: u64 = t * (PI_FP as u64 - t);
    let num: u128 = 16 * (a as u128) * (SCALE as u128);
    proof {
        assert(4 * (a as int) <= (PI_FP as int) * (PI_FP as int)) by (nonlinear_arith)
            requires
                a as int == (t as int) * (PI_FP as int - t as int),
                0 <= t, (t as int) <= PI_FP as int,
        ;
    }
    let den: u64 = 5 * (PI_FP as u64) * (PI_FP as u64) - 4 * a;
    let q: u128 = num / (den as u128);
    proof {
        assert(16 * (a as int) * (SCALE as int) == 16 * (t as int) * (PI_FP as int - t as int)
            * (SCALE as int)) by (nonlinear_arith)
            requires
                a as int == (t as int) * (PI_FP as int - t as int),
        ;
        assert(4 * (a as int) == 4 * (t as int) * (PI_FP as int - t as int)) by (nonlinear_arith)
            requires
                a as int == (t as int) * (PI_FP as int - t as int),
        ;
    }
    assert(q as int == spec_bhaskara(t as int));
    proof {
        assert(q <= SCALE as u128) by (nonlinear_arith)
            requires
                q as int == num as int / den as int,
                num as int == 16 * (a as int) * (SCALE as int),
                den as int == 5 * (PI_FP as int) * (PI_FP as int) - 4 * (a as int),
                4 * (a as int) <= (PI_FP as int) * (PI_FP as int),
                0 <= a,
                den > 0,
                SCALE == 1_000_000,
                PI_FP == 3_141_592,
        ;
    }
    q as i64
}

/// The text of one decimal digit.
pub open spec fn spec_digit_text(d: int) -> Seq<char> {
    if d == 0 {
        "0"@
    } else if d == 1 {
        "1"@
    } else if d == 2 {
        "2"@
    } else if d == 3 {
        "3"@
    } else if d == 4 {
        "4"@
    } else if d == 5 {
        "5"@
    } else if d == 6 {
        "6"@
    } else if d == 7 {
        "7"@
    } else if d == 8 {
        "8"@
    } else {
        "9"@
    }
}

/// The decimal text of a non-negative integer, most significant digit
/// first; `w` bounds the number of digits and is never exhausted for the
/// magnitudes this library stores.
pub open spec fn spec_dec_rec(n: int, w: nat) -> Seq<char>
    decreases w,
{
    if w == 0 || n < 10 {
        spec_digit_text(n % 10)
    } else {
        spec_dec_rec(n / 10, (w - 1) as nat) + spec_digit_text(n % 10)
    }
}

pub open spec fn spec_dec_text(n: int) -> Seq<char> {
    spec_dec_rec(n, 13)
}

/// The fractional digits of `f` at width `w` (most significant first, as
/// behind a decimal point), with trailing zero digits removed.
pub open spec fn spec_frac_rec(f: int, w: nat) -> Seq<char>
    decreases w,
{
    if w == 0 {
        Seq::<char>::empty()
    } else if f % 10 == 0 {
        spec_frac_rec(f / 10, (w - 1) as nat)
    } else {
        spec_pad_rec(f, w)
    }
}

/// Exactly `w` decimal digits of `f`, leading zeros kept.
pub open spec fn spec_pad_rec(f: int, w: nat) -> Seq<char>
    decreases w,
{
    if w == 0 {
        Seq::<char>::empty()
    } else {
        spec_pad_rec(f / 10, (w - 1) as nat) + spec_digit_text(f % 10)
    }
}

/// The decimal rendering of a scalar: an optional minus sign, the integer
/// part, and, when the six fractional digits are not all zero, a point and
/// the fractional digits with trailing zeros removed.
pub open spec fn spec_scalar_text(s: Scalar) -> Seq<char> {
    match s {
        Scalar::Nan => "nan"@,
        Scalar::Num(v) => {
            let m = abs_int(v as int);
            let body = spec_dec_text(m / (SCALE as int)) + (if m % (SCALE as int) == 0 {
                Seq::<char>::empty()
            } else {
                "."@ + spec_frac_rec(m % (SCALE as int), 6)
            });
            if v < 0 {
                "-"@ + body
            } else {
                body
            }
        },
    }
}

/// One decimal digit as borrowed text.
fn digit_str(d: u64) -> (r: &'static str)
    requires
        d < 10,
    ensures
        r@ == spec_digit_text(d as int),
{
    if d == 0 {
        "0"
    } else if d == 1 {
        "1"
    } else if d == 2 {
        "2"
    } else if d == 3 {
        "3"
    } else if d == 4 {
        "4"
    } else if d == 5 {
        "5"
    } else if d == 6 {
        "6"
    } else if d == 7 {
        "7"
    } else if d == 8 {
        "8"
    } else {
        "9"
    }
}

fn push_dec_rec(out: &mut String, n: u64, w: u64)
    requires
        n < 10_000_000_000_000,
    ensures
        final(out)@ == old(out)@ + spec_dec_rec(n as int, w as nat),
    decreases w,
{
    if w == 0 || n < 10 {
        out.append(digit_str(n % 10));
    } else {
        push_dec_rec(out, n / 10, w - 1);
        out.append(digit_str(n % 10));
    }
}

fn push_frac_rec(out: &mut String, f: u64, w: u64)
    ensures
        final(out)@ == old(out)@ + spec_frac_rec(f as int, w as nat),
    decreases w,
{
    if w == 0 {
    } else if f % 10 == 0 {
        push_frac_rec(out, f / 10, w - 1);
    } else {
        push_pad_rec(out, f, w);
    }
}

fn push_pad_rec(out: &mut String, f: u64, w: u64)
    ensures
        final(out)@ == old(out)@ + spec_pad_rec(f as int, w as nat),
    decreases w,
{
    if w == 0 {
    } else {
        push_pad_rec(out, f / 10, w - 1);
        out.append(digit_str(f % 10));
    }
}

impl Scalar {
    /// The decimal text of this value, as the code generator prints it.
    pub fn to_text(self) -> (r: String)
        requires
            self.wf(),
        ensures
            r@ == spec_scalar_text(self),
    {
        match self {
            Scalar::Nan => {
                let r = String::from_str("nan");
                r
            },
            Scalar::Num(v) => {
                let mut out = String::new();
                if v < 0 {
                    out.append("-");
                }
                let m = mag_u64(v);
                let ip: u64 = m / 1_000_000;
                let fp: u64 = m % 1_000_000;
                push_dec_rec(&mut out, ip, 13);
                if fp != 0 {
                    out.append(".");
                    push_frac_rec(&mut out, fp, 6);
                }
                out
            },
        }
    }
}

} // verus!
