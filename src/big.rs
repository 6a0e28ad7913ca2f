//! Unsigned 256-bit values built from two 128-bit halves, wide enough to
//! hold the product of any two reserves.

use vstd::arithmetic::div_mod::lemma_fundamental_div_mod_converse;
use vstd::prelude::*;

verus! {

/// 2^64, the base of the half-words used for multiplication.
pub const HALF: u128 = 0x1_0000_0000_0000_0000;

/// 2^128, the weight of the high half.
pub open spec fn word() -> nat {
    (HALF as nat) * (HALF as nat)
}

/// 2^256, one more than the largest representable value.
pub open spec fn limit() -> nat {
    word() * word()
}

/// An unsigned integer `hi * 2^128 + lo`.
#[derive(Clone, Copy, Debug, PartialEq, Eq, Structural)]
pub struct BigProduct {
    pub hi: u128,
    pub lo: u128,
}

impl View for BigProduct {
    type V = nat;

    open spec fn view(&self) -> nat {
        self.hi as nat * word() + self.lo as nat
    }
}

/// Splits `x` into `q * HALF + r` with `r < HALF`.
proof fn lemma_split(x: int)
    requires
        x >= 0,
    ensures
        x == (x / (HALF as int)) * (HALF as int) + x % (HALF as int),
        0 <= x % (HALF as int),
        x % (HALF as int) < (HALF as int),
        x / (HALF as int) >= 0,
{
    vstd::arithmetic::div_mod::lemma_fundamental_div_mod(x, HALF as int);
}

proof fn lemma_product_halves(
    a: int,
    b: int,
    a1: int,
    a0: int,
    b1: int,
    b0: int,
    q00: int,
    r00: int,
    q01: int,
    r01: int,
    q10: int,
    r10: int,
    qm: int,
    rm: int,
)
    requires
        a == a1 * HALF + a0,
        b == b1 * HALF + b0,
        a0 * b0 == q00 * HALF + r00,
        a0 * b1 == q01 * HALF + r01,
        a1 * b0 == q10 * HALF + r10,
        r01 + r10 + q00 == qm * HALF + rm,
    ensures
        a * b == (a1 * b1 + q01 + q10 + qm) * word() + (rm * HALF + r00),
{
    assert(a * b == a1 * b1 * (HALF * HALF) + (a0 * b1 + a1 * b0) * HALF + a0 * b0)
        by (nonlinear_arith)
        requires
            a == a1 * HALF + a0,
            b == b1 * HALF + b0,
    ;
    assert((a0 * b1 + a1 * b0) * HALF + a0 * b0 == (q01 + q10 + qm) * (HALF * HALF) + rm * HALF
        + r00) by (nonlinear_arith)
        requires
            a0 * b0 == q00 * HALF + r00,
            a0 * b1 == q01 * HALF + r01,
            a1 * b0 == q10 * HALF + r10,
            r01 + r10 + q00 == qm * HALF + rm,
    ;
    assert(HALF * HALF == word());
    assert(a1 * b1 * word() + (q01 + q10 + qm) * word() == (a1 * b1 + q01 + q10 + qm) * word())
        by (nonlinear_arith);
}

proof fn lemma_half_product_bound(x: int, y: int)
    requires
        0 <= x < HALF,
        0 <= y < HALF,
    ensures
        x * y <= (HALF - 1) * (HALF - 1),
{
    assert(x * y <= (HALF - 1) * (HALF - 1)) by (nonlinear_arith)
        requires
            0 <= x <= HALF - 1,
            0 <= y <= HALF - 1,
    ;
}

proof fn lemma_word()
    ensures
        word() == u128::MAX as nat + 1,
        HALF as nat * HALF as nat == word(),
{
}

proof fn lemma_zero(v: BigProduct)
    ensures
        v@ == 0 <==> (v.hi == 0 && v.lo == 0),
{
    lemma_word();
    assert(v.hi > 0 ==> (v.hi as nat) * word() >= word()) by (nonlinear_arith)
        requires
            word() > 0,
    ;
}

proof fn lemma_order(x: BigProduct, y: BigProduct)
    ensures
        x@ < y@ <==> (x.hi < y.hi || (x.hi == y.hi && x.lo < y.lo)),
{
    lemma_word();
    let w = word() as int;
    assert(x.hi < y.hi ==> (x.hi as int) * w + (x.lo as int) < (y.hi as int) * w + (y.lo as int))
        by (nonlinear_arith)
        requires
            x.lo < w,
            y.lo >= 0,
    ;
    assert(y.hi < x.hi ==> (y.hi as int) * w + (y.lo as int) < (x.hi as int) * w + (x.lo as int))
        by (nonlinear_arith)
        requires
            y.lo < w,
            x.lo >= 0,
    ;
}

proof fn lemma_times_ten(hi: int, lo: int, d: int, l1: int, l0: int, c0: int, r0: int, c1: int, r1: int)
    requires
        lo == l1 * HALF + l0,
        l0 * 10 + d == c0 * HALF + r0,
        l1 * 10 + c0 == c1 * HALF + r1,
    ensures
        (hi * word() + lo) * 10 + d == (hi * 10 + c1) * word() + (r1 * HALF + r0),
{
    lemma_word();
    assert((hi * word() + lo) * 10 + d == (hi * 10 + c1) * word() + (r1 * HALF + r0))
        by (nonlinear_arith)
        requires
            lo == l1 * HALF + l0,
            l0 * 10 + d == c0 * HALF + r0,
            l1 * 10 + c0 == c1 * HALF + r1,
            word() == HALF * HALF,
    ;
}

proof fn lemma_div_ten(
    hi: int,
    lo: int,
    qh: int,
    rh: int,
    l1: int,
    l0: int,
    q1: int,
    r1: int,
    q0: int,
    r0: int,
)
    requires
        hi == qh * 10 + rh,
        lo == l1 * HALF + l0,
        rh * HALF + l1 == q1 * 10 + r1,
        r1 * HALF + l0 == q0 * 10 + r0,
    ensures
        hi * word() + lo == (qh * word() + (q1 * HALF + q0)) * 10 + r0,
{
    lemma_word();
    assert(hi * word() + lo == (qh * word() + (q1 * HALF + q0)) * 10 + r0) by (nonlinear_arith)
        requires
            hi == qh * 10 + rh,
            lo == l1 * HALF + l0,
            rh * HALF + l1 == q1 * 10 + r1,
            r1 * HALF + l0 == q0 * 10 + r0,
            word() == HALF * HALF,
    ;
}

impl BigProduct {
    /// The value zero.
    pub fn zero() -> (r: BigProduct)
        ensures
            r@ == 0,
    {
        BigProduct { hi: 0, lo: 0 }
    }

    /// A value that fits in 128 bits.
    pub fn from_u128(x: u128) -> (r: BigProduct)
        ensures
            r@ == x,
    {
        BigProduct { hi: 0, lo: x }
    }

    /// Whether the value is zero.
    pub fn is_zero(&self) -> (r: bool)
        ensures
            r == (self@ == 0),
    {
        proof {
            lemma_zero(*self);
        }
        self.hi == 0 && self.lo == 0
    }

    /// Whether `self <= other`.
    pub fn le(&self, other: &BigProduct) -> (r: bool)
        ensures
            r == (self@ <= other@),
    {
        proof {
            lemma_order(*other, *self);
        }
        self.hi < other.hi || (self.hi == other.hi && self.lo <= other.lo)
    }

    /// The exact product of two 128-bit values; it never overflows.
    pub fn multiply(a: u128, b: u128) -> (r: BigProduct)
        ensures
            r@ == a as nat * b as nat,
    {
        let a1 = a / HALF;
        let a0 = a % HALF;
        let b1 = b / HALF;
        let b0 = b % HALF;
        proof {
            lemma_split(a as int);
            lemma_split(b as int);
            lemma_half_product_bound(a0 as int, b0 as int);
            lemma_half_product_bound(a0 as int, b1 as int);
            lemma_half_product_bound(a1 as int, b0 as int);
            lemma_half_product_bound(a1 as int, b1 as int);
        }
        let p00 = a0 * b0;
        let p01 = a0 * b1;
        let p10 = a1 * b0;
        let p11 = a1 * b1;
        proof {
            lemma_split(p00 as int);
            lemma_split(p01 as int);
            lemma_split(p10 as int);
            assert((p01 as int) / (HALF as int) <= HALF - 2) by {
                assert((HALF - 1) * (HALF - 1) == (HALF - 2) * HALF + 1);
            }
            assert((p10 as int) / (HALF as int) <= HALF - 2) by {
                assert((HALF - 1) * (HALF - 1) == (HALF - 2) * HALF + 1);
            }
        }
        let mid = p01 % HALF + p10 % HALF + p00 / HALF;
        proof {
            lemma_split(mid as int);
        }
        let lo = (mid % HALF) * HALF + p00 % HALF;
        let hi = p11 + p01 / HALF + p10 / HALF + mid / HALF;
        proof {
            lemma_product_halves(
                a as int,
                b as int,
                a1 as int,
                a0 as int,
                b1 as int,
                b0 as int,
                (p00 / HALF) as int,
                (p00 % HALF) as int,
                (p01 / HALF) as int,
                (p01 % HALF) as int,
                (p10 / HALF) as int,
                (p10 % HALF) as int,
                (mid / HALF) as int,
                (mid % HALF) as int,
            );
        }
        BigProduct { hi, lo }
    }

    /// `self * 10 + d`, or `None` where that does not fit in 256 bits.
    pub fn times_ten_plus(&self, d: u8) -> (r: Option<BigProduct>)
        requires
            d < 10,
        ensures
            match r {
                Some(v) => v@ == self@ * 10 + d,
                None => self@ * 10 + d >= limit(),
            },
    {
        let l1 = self.lo / HALF;
        let l0 = self.lo % HALF;
        proof {
            lemma_split(self.lo as int);
        }
        let t0 = l0 * 10 + d as u128;
        let c0 = t0 / HALF;
        let r0 = t0 % HALF;
        proof {
            lemma_split(t0 as int);
            lemma_word();
            assert(c0 <= 10);
            assert(l1 < HALF) by {
                assert((l1 as int) * (HALF as int) <= self.lo);
                assert(self.lo < word());
                assert((l1 as int) < (HALF as int)) by (nonlinear_arith)
                    requires
                        (l1 as int) * (HALF as int) < (HALF as int) * (HALF as int),
                ;
            }
        }
        let t1 = l1 * 10 + c0;
        let c1 = t1 / HALF;
        let r1 = t1 % HALF;
        proof {
            lemma_split(t1 as int);
            lemma_times_ten(
                self.hi as int,
                self.lo as int,
                d as int,
                l1 as int,
                l0 as int,
                c0 as int,
                r0 as int,
                c1 as int,
                r1 as int,
            );
            assert(c1 <= 10);
        }
        let lo = r1 * HALF + r0;
        if self.hi > (u128::MAX - c1) / 10 {
            proof {
                let h = (self.hi as int) * 10 + (c1 as int);
                assert(h >= word());
                assert(h * word() + (lo as int) >= limit()) by (nonlinear_arith)
                    requires
                        h >= word(),
                        lo >= 0,
                        limit() == word() * word(),
                ;
            }
            None
        } else {
            Some(BigProduct { hi: self.hi * 10 + c1, lo })
        }
    }

    /// The quotient and remainder of division by ten.
    pub fn div_ten(&self) -> (r: (BigProduct, u8))
        ensures
            self@ == r.0@ * 10 + r.1,
            r.1 < 10,
    {
        let qh = self.hi / 10;
        let rh = self.hi % 10;
        let l1 = self.lo / HALF;
        let l0 = self.lo % HALF;
        proof {
            lemma_split(self.lo as int);
            lemma_word();
            assert((l1 as int) < (HALF as int)) by (nonlinear_arith)
                requires
                    (l1 as int) * (HALF as int) <= self.lo,
                    self.lo < (HALF as int) * (HALF as int),
            ;
        }
        let t1 = rh * HALF + l1;
        let q1 = t1 / 10;
        let r1 = t1 % 10;
        let t0 = r1 * HALF + l0;
        let q0 = t0 / 10;
        let r0 = t0 % 10;
        let lo = q1 * HALF + q0;
        proof {
            lemma_div_ten(
                self.hi as int,
                self.lo as int,
                qh as int,
                rh as int,
                l1 as int,
                l0 as int,
                q1 as int,
                r1 as int,
                q0 as int,
                r0 as int,
            );
        }
        (BigProduct { hi: qh, lo }, r0 as u8)
    }

    /// `floor(self / d)` where that quotient fits in 128 bits, else `None`.
    pub fn divide(&self, d: u128) -> (r: Option<u128>)
        requires
            d > 0,
        ensures
            match r {
                Some(q) => q == self@ / (d as nat),
                None => self@ / (d as nat) >= word(),
            },
    {
        let n = *self;
        proof {
            lemma_word();
        }
        let scaled = BigProduct { hi: d, lo: 0 };
        if scaled.le(&n) {
            proof {
                let nn = n@ as int;
                let dd = d as int;
                let q = nn / dd;
                vstd::arithmetic::div_mod::lemma_fundamental_div_mod(nn, dd);
                assert(q >= word()) by (nonlinear_arith)
                    requires
                        nn == dd * q + nn % dd,
                        nn % dd < dd,
                        dd * word() <= nn,
                        dd > 0,
                ;
            }
            return None;
        }
        let mut lo: u128 = 0;
        let mut hi: u128 = u128::MAX;
        while lo < hi
            invariant
                lo <= hi,
                (lo as nat) * (d as nat) <= n@,
                n@ < (hi as nat + 1) * (d as nat),
            decreases hi - lo,
        {
            let mid = lo + (hi - lo) / 2 + 1;
            let p = BigProduct::multiply(mid, d);
            if p.le(&n) {
                lo = mid;
            } else {
                hi = mid - 1;
            }
        }
        proof {
            assert((lo as int + 1) * (d as int) == (lo as int) * (d as int) + d) by (nonlinear_arith);
            lemma_fundamental_div_mod_converse(
                n@ as int,
                d as int,
                lo as int,
                n@ as int - (lo as int) * (d as int),
            );
        }
        Some(lo)
    }
}

} // verus!
