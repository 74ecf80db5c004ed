use vstd::prelude::*;

verus! {

/// An exact rational number: `num / den` with a positive denominator.
///
/// All arithmetic in the evaluator is exact. An operation whose numerator or
/// denominator would leave the `i64` range reports overflow instead of
/// returning a rounded or wrapped value.
#[derive(Clone, Copy, Debug, PartialEq, Eq, Structural)]
pub struct Value {
    pub num: i64,
    pub den: i64,
}

/// Whether `x` fits in an `i64`.
pub open spec fn in_i64(x: int) -> bool {
    i64::MIN as int <= x <= i64::MAX as int
}

/// The sum of the rationals `a / b` and `c / d`, or `None` when the result's
/// raw numerator or denominator does not fit in an `i64`.
pub open spec fn rat_add(a: int, b: int, c: int, d: int) -> Option<(int, int)> {
    let n = a * d + c * b;
    let m = b * d;
    if in_i64(n) && in_i64(m) {
        Some((n, m))
    } else {
        None
    }
}

/// The difference of the rationals `a / b` and `c / d`, or `None` on overflow.
pub open spec fn rat_sub(a: int, b: int, c: int, d: int) -> Option<(int, int)> {
    let n = a * d - c * b;
    let m = b * d;
    if in_i64(n) && in_i64(m) {
        Some((n, m))
    } else {
        None
    }
}

/// The product of the rationals `a / b` and `c / d`, or `None` on overflow.
pub open spec fn rat_mul(a: int, b: int, c: int, d: int) -> Option<(int, int)> {
    let n = a * c;
    let m = b * d;
    if in_i64(n) && in_i64(m) {
        Some((n, m))
    } else {
        None
    }
}

/// The quotient of the rationals `a / b` and `c / d` for `c != 0`, with the
/// sign carried by the numerator, or `None` on overflow. Division by a zero
/// rational is rejected by the evaluator before this point.
pub open spec fn rat_div(a: int, b: int, c: int, d: int) -> Option<(int, int)> {
    if c == 0 {
        None
    } else {
        let n = if c < 0 { -(a * d) } else { a * d };
        let m = if c < 0 { -(b * c) } else { b * c };
        if in_i64(n) && in_i64(m) {
            Some((n, m))
        } else {
            None
        }
    }
}

/// The negation of the rational `a / b`, or `None` on overflow.
pub open spec fn rat_neg(a: int, b: int) -> Option<(int, int)> {
    if in_i64(-a) {
        Some((-a, b))
    } else {
        None
    }
}

/// Bounds of a product of two `i64`-ranged factors: it always fits in an
/// `i128`.
proof fn lemma_mul_i64_bounds(a: int, b: int)
    requires
        in_i64(a),
        in_i64(b),
    ensures
        -0x4000_0000_0000_0000_0000_0000_0000_0000 <= a * b
            <= 0x4000_0000_0000_0000_0000_0000_0000_0000,
        a * b == b * a,
{
    assert(-0x4000_0000_0000_0000_0000_0000_0000_0000 <= a * b
        <= 0x4000_0000_0000_0000_0000_0000_0000_0000 && a * b == b * a)
        by (nonlinear_arith)
        requires
            i64::MIN as int <= a <= i64::MAX as int,
            i64::MIN as int <= b <= i64::MAX as int,
    {}
}

/// Bounds and sign of a product of an `i64`-ranged factor with a positive
/// `i64`-ranged factor: it stays strictly under half the `i128` range, and it
/// keeps the sign of the first factor.
proof fn lemma_mul_parts(a: int, b: int)
    requires
        in_i64(a),
        1 <= b <= i64::MAX as int,
    ensures
        -0x3fff_ffff_ffff_ffff_8000_0000_0000_0000 <= a * b
            <= 0x3fff_ffff_ffff_ffff_8000_0000_0000_0000,
        1 <= a ==> 1 <= a * b,
        a <= -1 ==> a * b <= -1,
        a == 0 ==> a * b == 0,
        a * b == b * a,
{
    assert(-0x3fff_ffff_ffff_ffff_8000_0000_0000_0000 <= a * b
        <= 0x3fff_ffff_ffff_ffff_8000_0000_0000_0000 && (1 <= a ==> 1 <= a * b) && (a <= -1
        ==> a * b <= -1) && (a == 0 ==> a * b == 0) && a * b == b * a) by (nonlinear_arith)
        requires
            i64::MIN as int <= a <= i64::MAX as int,
            1 <= b <= i64::MAX as int,
    {}
}

/// A product with a positive left factor keeps the sign of the right factor.
pub proof fn lemma_sign_mul(a: int, b: int)
    requires
        1 <= a,
    ensures
        1 <= b ==> 1 <= a * b,
        b <= -1 ==> a * b <= -1,
        a * b == b * a,
{
    assert((1 <= b ==> 1 <= a * b) && (b <= -1 ==> a * b <= -1) && a * b == b * a)
        by (nonlinear_arith)
        requires
            1 <= a,
    {}
}

impl Value {
    /// A value is well formed when its denominator is positive, so that it
    /// denotes a finite rational.
    pub open spec fn wf(self) -> bool {
        1 <= self.den
    }

    /// The exact sum of two values, or `None` on overflow.
    pub fn add(self, rhs: Value) -> (r: Option<Value>)
        requires
            self.wf(),
            rhs.wf(),
        ensures
            match r {
                Some(v) => v.wf() && rat_add(self.num as int, self.den as int, rhs.num as int,
                    rhs.den as int) == Some((v.num as int, v.den as int)),
                None => rat_add(self.num as int, self.den as int, rhs.num as int,
                    rhs.den as int) is None,
            },
    {
        proof {
            lemma_mul_parts(self.num as int, rhs.den as int);
            lemma_mul_parts(rhs.num as int, self.den as int);
            lemma_mul_parts(self.den as int, rhs.den as int);
        }
        let n: i128 = self.num as i128 * rhs.den as i128 + rhs.num as i128 * self.den as i128;
        let m: i128 = self.den as i128 * rhs.den as i128;
        if n < i64::MIN as i128 || n > i64::MAX as i128 || m > i64::MAX as i128 {
            None
        } else {
            Some(Value { num: n as i64, den: m as i64 })
        }
    }

    /// The exact difference of two values, or `None` on overflow.
    pub fn sub(self, rhs: Value) -> (r: Option<Value>)
        requires
            self.wf(),
            rhs.wf(),
        ensures
            match r {
                Some(v) => v.wf() && rat_sub(self.num as int, self.den as int, rhs.num as int,
                    rhs.den as int) == Some((v.num as int, v.den as int)),
                None => rat_sub(self.num as int, self.den as int, rhs.num as int,
                    rhs.den as int) is None,
            },
    {
        proof {
            lemma_mul_parts(self.num as int, rhs.den as int);
            lemma_mul_parts(rhs.num as int, self.den as int);
            lemma_mul_parts(self.den as int, rhs.den as int);
        }
        let n: i128 = self.num as i128 * rhs.den as i128 - rhs.num as i128 * self.den as i128;
        let m: i128 = self.den as i128 * rhs.den as i128;
        if n < i64::MIN as i128 || n > i64::MAX as i128 || m > i64::MAX as i128 {
            None
        } else {
            Some(Value { num: n as i64, den: m as i64 })
        }
    }

    /// The exact product of two values, or `None` on overflow.
    pub fn mul(self, rhs: Value) -> (r: Option<Value>)
        requires
            self.wf(),
            rhs.wf(),
        ensures
            match r {
                Some(v) => v.wf() && rat_mul(self.num as int, self.den as int, rhs.num as int,
                    rhs.den as int) == Some((v.num as int, v.den as int)),
                None => rat_mul(self.num as int, self.den as int, rhs.num as int,
                    rhs.den as int) is None,
            },
    {
        proof {
            lemma_mul_i64_bounds(self.num as int, rhs.num as int);
            lemma_mul_parts(self.den as int, rhs.den as int);
        }
        let n: i128 = self.num as i128 * rhs.num as i128;
        let m: i128 = self.den as i128 * rhs.den as i128;
        if n < i64::MIN as i128 || n > i64::MAX as i128 || m > i64::MAX as i128 {
            None
        } else {
            Some(Value { num: n as i64, den: m as i64 })
        }
    }

    /// The exact quotient of two values, or `None` on overflow. The divisor
    /// must be nonzero; the evaluator reports division by zero before calling.
    pub fn div(self, rhs: Value) -> (r: Option<Value>)
        requires
            self.wf(),
            rhs.wf(),
            rhs.num != 0,
        ensures
            match r {
                Some(v) => v.wf() && rat_div(self.num as int, self.den as int, rhs.num as int,
                    rhs.den as int) == Some((v.num as int, v.den as int)),
                None => rat_div(self.num as int, self.den as int, rhs.num as int,
                    rhs.den as int) is None,
            },
    {
        proof {
            lemma_mul_parts(self.num as int, rhs.den as int);
            lemma_mul_parts(rhs.num as int, self.den as int);
        }
        let mut n: i128 = self.num as i128 * rhs.den as i128;
        let mut m: i128 = self.den as i128 * rhs.num as i128;
        if rhs.num < 0 {
            n = -n;
            m = -m;
        }
        if n < i64::MIN as i128 || n > i64::MAX as i128 || m > i64::MAX as i128 {
            None
        } else {
            Some(Value { num: n as i64, den: m as i64 })
        }
    }

    /// The exact negation of a value, or `None` on overflow.
    pub fn neg(self) -> (r: Option<Value>)
        requires
            self.wf(),
        ensures
            match r {
                Some(v) => v.wf() && rat_neg(self.num as int, self.den as int)
                    == Some((v.num as int, v.den as int)),
                None => rat_neg(self.num as int, self.den as int) is None,
            },
    {
        if self.num == i64::MIN {
            None
        } else {
            Some(Value { num: -self.num, den: self.den })
        }
    }
}

} // verus!
