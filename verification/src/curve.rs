//! The experience curve: how much XP a level costs.
//!
//! The cost of level `L` is `base * growth^L`, truncated to an integer, where
//! `growth` is a ratio of two integers. The cost is computed exactly, by long
//! multiplication in the base of the ratio's denominator, so no rounding ever
//! enters the result.

use vstd::prelude::*;
use vstd::arithmetic::div_mod::{
    lemma_div_is_ordered, lemma_div_multiples_vanish, lemma_fundamental_div_mod,
    lemma_fundamental_div_mod_converse, lemma_mod_bound,
};
use vstd::arithmetic::power::{lemma_pow0, lemma_pow_positive, pow};

verus! {

/// The curve as mathematics: `base * (num / den)^level`.
pub struct CurveModel {
    pub base: nat,
    pub num: nat,
    pub den: nat,
}

impl CurveModel {
    /// The growth ratio exceeds one, and the very first step already rises
    /// by at least one whole point: `base * (growth - 1) >= 1`.
    pub open spec fn valid(self) -> bool {
        &&& self.den >= 1
        &&& self.num > self.den
        &&& self.base * (self.num - self.den) >= self.den
    }

    /// `base * num^level`, the cost before division by `den^level`.
    pub open spec fn scaled(self, level: nat) -> int {
        self.base * pow(self.num as int, level)
    }

    /// The XP that `level` costs: `base * (num / den)^level`, rounded down.
    pub open spec fn threshold(self, level: nat) -> int {
        self.scaled(level) / pow(self.den as int, level)
    }
}

/// The model of a curve with the given constants.
pub open spec fn curve_model(base: u32, num: u32, den: u32) -> CurveModel {
    CurveModel { base: base as nat, num: num as nat, den: den as nat }
}

proof fn lemma_pow_succ(b: int, e: nat)
    ensures
        pow(b, e + 1) == b * pow(b, e),
{
    reveal(pow);
}

proof fn lemma_pow_base_ordered(a: int, b: int, e: nat)
    requires
        0 <= a <= b,
    ensures
        0 <= pow(a, e) <= pow(b, e),
    decreases e,
{
    if e == 0 {
        lemma_pow0(a);
        lemma_pow0(b);
    } else {
        let e1 = (e - 1) as nat;
        lemma_pow_base_ordered(a, b, e1);
        lemma_pow_succ(a, e1);
        lemma_pow_succ(b, e1);
        let pa = pow(a, e1);
        let pb = pow(b, e1);
        assert(0 <= a * pa <= b * pb) by (nonlinear_arith)
            requires
                0 <= a <= b,
                0 <= pa <= pb,
        ;
    }
}

/// Each level costs strictly more than the one before it.
pub proof fn lemma_threshold_rises(c: CurveModel, level: nat)
    requires
        c.valid(),
    ensures
        0 <= c.threshold(level) < c.threshold(level + 1),
{
    let n = c.num as int;
    let d = c.den as int;
    let b = c.base as int;
    let pn = pow(n, level);
    let pd = pow(d, level);
    lemma_pow_succ(n, level);
    lemma_pow_succ(d, level);
    lemma_pow_positive(d, level);
    lemma_pow_base_ordered(d, n, level);
    let a = b * pn;
    let q = a / pd;
    lemma_fundamental_div_mod(a, pd);
    lemma_mod_bound(a, pd);
    assert(a >= b * pd) by (nonlinear_arith)
        requires
            a == b * pn,
            0 <= pd <= pn,
            0 <= b,
    ;
    assert(a >= q * pd) by (nonlinear_arith)
        requires
            a == pd * q + a % pd,
            0 <= a % pd,
    ;
    assert(0 <= q) by (nonlinear_arith)
        requires
            a == pd * q + a % pd,
            a % pd < pd,
            0 < pd,
            0 <= a,
    ;
    let m = pd * d;
    assert(a * d >= q * m) by (nonlinear_arith)
        requires
            a >= q * pd,
            d >= 1,
            m == pd * d,
    ;
    assert(a * (n - d) >= m) by (nonlinear_arith)
        requires
            a >= b * pd,
            n - d >= 1,
            b * (n - d) >= d,
            pd >= 1,
            m == pd * d,
    ;
    assert(a * n >= (q + 1) * m) by (nonlinear_arith)
        requires
            a * d >= q * m,
            a * (n - d) >= m,
    ;
    assert(c.scaled(level + 1) == a * n) by (nonlinear_arith)
        requires
            c.scaled(level + 1) == b * (n * pn),
            a == b * pn,
    ;
    assert(pow(d, level + 1) == m) by (nonlinear_arith)
        requires
            pow(d, level + 1) == d * pd,
            m == pd * d,
    ;
    assert(0 < m) by (nonlinear_arith)
        requires
            m == pd * d,
            0 < pd,
            0 < d,
    ;
    lemma_div_is_ordered((q + 1) * m, a * n, m);
    lemma_div_multiples_vanish(q + 1, m);
    assert((q + 1) * m == m * (q + 1)) by (nonlinear_arith);
}

/// Over any span of levels the cost rises by at least the length of the span.
pub proof fn lemma_threshold_ordered(c: CurveModel, low: nat, high: nat)
    requires
        c.valid(),
        low <= high,
    ensures
        c.threshold(low) + (high - low) <= c.threshold(high),
    decreases high - low,
{
    if low < high {
        lemma_threshold_ordered(c, low, (high - 1) as nat);
        lemma_threshold_rises(c, (high - 1) as nat);
    }
}

/// No level is free: level `L` costs at least `base + L`, hence at least one
/// point.
pub proof fn lemma_threshold_floor(c: CurveModel, level: nat)
    requires
        c.valid(),
    ensures
        c.threshold(level) >= c.base + level,
        c.threshold(level) >= 1,
{
    lemma_pow0(c.num as int);
    lemma_pow0(c.den as int);
    assert(c.threshold(0) == c.base);
    lemma_threshold_ordered(c, 0, level);
    assert(c.base >= 1) by (nonlinear_arith)
        requires
            c.base * (c.num - c.den) >= c.den,
            c.den >= 1,
            c.num > c.den,
    ;
}

/// Every digit of `s` is a digit in base `d`.
spec fn digits_below(s: Seq<u32>, d: int) -> bool {
    forall|j: int| 0 <= j < s.len() ==> (#[trigger] s[j]) < d
}

/// The number that `s` writes in base `d`, least significant digit first.
spec fn digits_value(s: Seq<u32>, d: int) -> int
    decreases s.len(),
{
    if s.len() == 0 {
        0
    } else {
        digits_value(s.drop_last(), d) + s.last() * pow(d, (s.len() - 1) as nat)
    }
}

proof fn lemma_digits_push(s: Seq<u32>, x: u32, d: int)
    ensures
        digits_value(s.push(x), d) == digits_value(s, d) + x * pow(d, s.len()),
{
    assert(s.push(x).drop_last() =~= s);
}

proof fn lemma_digits_prefix(s: Seq<u32>, i: int, d: int)
    requires
        0 <= i < s.len(),
    ensures
        digits_value(s.subrange(0, i + 1), d) == digits_value(s.subrange(0, i), d) + s[i] * pow(
            d,
            i as nat,
        ),
{
    assert(s.subrange(0, i + 1) =~= s.subrange(0, i).push(s[i]));
    lemma_digits_push(s.subrange(0, i), s[i], d);
}

proof fn lemma_digits_bound(s: Seq<u32>, d: int)
    requires
        1 <= d,
        digits_below(s, d),
    ensures
        0 <= digits_value(s, d) < pow(d, s.len()),
    decreases s.len(),
{
    if s.len() == 0 {
        lemma_pow0(d);
    } else {
        let rest = s.drop_last();
        let e = (s.len() - 1) as nat;
        assert(digits_below(rest, d)) by {
            assert forall|j: int| 0 <= j < rest.len() implies (#[trigger] rest[j]) < d by {
                assert(rest[j] == s[j]);
            }
        }
        lemma_digits_bound(rest, d);
        lemma_pow_succ(d, e);
        lemma_pow_positive(d, e);
        let p = pow(d, e);
        let x = s.last() as int;
        assert(0 <= x * p && x * p + p <= d * p) by (nonlinear_arith)
            requires
                0 <= x < d,
                0 < p,
        ;
    }
}

/// A leveling curve with integer constants: `base` points for level 0, each
/// further level costing `num / den` times the one before.
pub struct XpCurve {
    base: u32,
    num: u32,
    den: u32,
}

impl View for XpCurve {
    type V = CurveModel;

    closed spec fn view(&self) -> CurveModel {
        curve_model(self.base, self.num, self.den)
    }
}

/// Multiplies the number that `digits` writes in base `d` by `n`, in place,
/// and returns what is carried out of the most significant digit.
fn scale_digits(digits: &mut Vec<u32>, n: u64, d: u64) -> (carry: u64)
    requires
        1 <= d <= u32::MAX,
        1 <= n <= u32::MAX,
        digits_below(old(digits)@, d as int),
    ensures
        final(digits)@.len() == old(digits)@.len(),
        digits_below(final(digits)@, d as int),
        carry < n,
        digits_value(final(digits)@, d as int) + carry * pow(d as int, old(digits)@.len())
            == digits_value(old(digits)@, d as int) * n,
{
    let ghost before = digits@;
    let ghost di = d as int;
    let mut carry: u64 = 0;
    let mut i: usize = 0;
    proof {
        lemma_pow0(di);
        assert(digits@.subrange(0, 0) =~= Seq::<u32>::empty());
    }
    while i < digits.len()
        invariant
            i <= digits.len(),
            digits.len() == before.len(),
            di == d as int,
            1 <= d <= u32::MAX,
            1 <= n <= u32::MAX,
            carry < n,
            digits_below(before, di),
            forall|j: int| i <= j < digits.len() ==> digits@[j] == before[j],
            forall|j: int| 0 <= j < i ==> (#[trigger] digits@[j]) < d,
            digits_value(digits@.subrange(0, i as int), di) + carry * pow(di, i as nat)
                == digits_value(before.subrange(0, i as int), di) * n,
        decreases digits.len() - i,
    {
        let ghost prior = digits@;
        let ghost old_carry = carry as int;
        let digit: u64 = digits[i] as u64;
        assert(digit == before[i as int]);
        assert(digit < d);
        assert(digit * n + carry <= d * n - 1) by (nonlinear_arith)
            requires
                digit + 1 <= d,
                carry + 1 <= n,
                1 <= n,
        ;
        assert(d * n <= 0xffff_ffff * 0xffff_ffff) by (nonlinear_arith)
            requires
                1 <= d <= 0xffff_ffff,
                1 <= n <= 0xffff_ffff,
        ;
        let cur: u64 = digit * n + carry;
        let low: u64 = cur % d;
        digits.set(i, low as u32);
        carry = cur / d;
        proof {
            let p = pow(di, i as nat);
            lemma_fundamental_div_mod(cur as int, di);
            assert((cur as int) / di < n) by (nonlinear_arith)
                requires
                    cur as int == di * ((cur as int) / di) + (cur as int) % di,
                    0 <= (cur as int) % di,
                    cur <= d * n - 1,
                    di == d as int,
                    1 <= d,
            ;
            lemma_digits_prefix(digits@, i as int, di);
            lemma_digits_prefix(before, i as int, di);
            assert(digits@.subrange(0, i as int) =~= prior.subrange(0, i as int));
            lemma_pow_succ(di, i as nat);
            let head = digits_value(prior.subrange(0, i as int), di);
            let tail = digits_value(before.subrange(0, i as int), di);
            let hi = (cur as int) / di;
            let lo = (cur as int) % di;
            assert(head + lo * p + hi * (di * p) == (tail + digit * p) * n) by (nonlinear_arith)
                requires
                    head + old_carry * p == tail * n,
                    cur as int == di * hi + lo,
                    cur as int == digit * n + old_carry,
            ;
        }
        i = i + 1;
    }
    proof {
        assert(digits@.subrange(0, i as int) =~= digits@);
        assert(before.subrange(0, i as int) =~= before);
    }
    carry
}

impl XpCurve {
    /// Every curve is valid: it rises at every level.
    #[verifier::type_invariant]
    pub open spec fn inv(self) -> bool {
        self@.valid()
    }

    /// The curve with the given constants, if they make a valid curve.
    pub fn new(base: u32, num: u32, den: u32) -> (r: Option<XpCurve>)
        ensures
            r is Some <==> curve_model(base, num, den).valid(),
            r matches Some(c) ==> c@ == curve_model(base, num, den),
    {
        if den >= 1 && num > den {
            let span: u64 = (num - den) as u64;
            assert(base * span <= 0xffff_ffff * 0xffff_ffff) by (nonlinear_arith)
                requires
                    base <= 0xffff_ffff,
                    span <= 0xffff_ffff,
            ;
            let rise: u64 = (base as u64) * span;
            if rise >= den as u64 {
                return Some(XpCurve { base, num, den });
            }
        }
        None
    }

    /// The curve that starts at 100 points and grows by 1.3 per level.
    pub fn standard() -> (c: XpCurve)
        ensures
            c@ == curve_model(100, 13, 10),
    {
        XpCurve { base: 100, num: 13, den: 10 }
    }

    /// The points that level 0 costs.
    pub fn base(&self) -> (b: u32)
        ensures
            b == self@.base,
    {
        self.base
    }

    /// The XP that `level` costs, or `None` where the cost is beyond what an
    /// XP counter can hold.
    ///
    /// The cost is built up level by level and the work stops at the first
    /// level whose cost no counter holds, so it grows with the square of
    /// the number of levels below that one.
    pub fn threshold(&self, level: u32) -> (t: Option<u32>)
        ensures
            self@.valid(),
            match t {
                Some(v) => v == self@.threshold(level as nat),
                None => self@.threshold(level as nat) > u32::MAX,
            },
    {
        proof {
            use_type_invariant(self);
        }
        let n: u64 = self.num as u64;
        let d: u64 = self.den as u64;
        let ghost di = d as int;
        let mut whole: u64 = self.base as u64;
        let mut frac: Vec<u32> = Vec::new();
        let mut k: u32 = 0;
        proof {
            lemma_pow0(di);
            lemma_pow0(n as int);
        }
        while k < level
            invariant
                k <= level,
                self@.valid(),
                n == self@.num,
                d == self@.den,
                di == d as int,
                whole <= u32::MAX,
                frac.len() == k,
                digits_below(frac@, di),
                whole * pow(di, k as nat) + digits_value(frac@, di) == self@.scaled(k as nat),
            decreases level - k,
        {
            let ghost before = frac@;
            let ghost pd = pow(di, k as nat);
            let carry = scale_digits(&mut frac, n, d);
            assert(whole * n + carry <= 0xffff_ffff * 0xffff_ffff + 0xffff_ffff) by (nonlinear_arith)
                requires
                    whole <= 0xffff_ffff,
                    n <= 0xffff_ffff,
                    carry < n,
            ;
            let top: u64 = whole * n + carry;
            let next: u64 = top / d;
            let ghost scaled_digits = frac@;
            frac.push((top % d) as u32);
            proof {
                lemma_digits_push(scaled_digits, (top % d) as u32, di);
                lemma_pow_succ(di, k as nat);
                lemma_pow_succ(n as int, k as nat);
                lemma_fundamental_div_mod(top as int, di);
                let hi = (top as int) / di;
                let lo = (top as int) % di;
                let low_part = digits_value(scaled_digits, di);
                let was = digits_value(before, di);
                let pn = pow(n as int, k as nat);
                let t = top as int;
                let w = whole as int;
                let cy = carry as int;
                let ni = n as int;
                let b = self@.base as int;
                assert(t * pd == hi * (di * pd) + lo * pd) by (nonlinear_arith)
                    requires
                        t == di * hi + lo,
                ;
                assert(t * pd == (w * pd) * ni + cy * pd) by (nonlinear_arith)
                    requires
                        t == w * ni + cy,
                ;
                assert((w * pd) * ni + was * ni == (b * pn) * ni) by (nonlinear_arith)
                    requires
                        w * pd + was == b * pn,
                ;
                assert((b * pn) * ni == b * (ni * pn)) by (nonlinear_arith);
                assert(hi * (di * pd) + (low_part + lo * pd) == b * (ni * pn));
                assert(digits_below(frac@, di)) by {
                    assert forall|j: int| 0 <= j < frac@.len() implies (#[trigger] frac@[j])
                        < di by {
                        if j < scaled_digits.len() {
                            assert(frac@[j] == scaled_digits[j]);
                        }
                    }
                }
            }
            k = k + 1;
            if next > u32::MAX as u64 {
                proof {
                    lemma_quotient(self@, k as nat, next as int, frac@);
                    lemma_threshold_ordered(self@, k as nat, level as nat);
                }
                return None;
            }
            whole = next;
        }
        proof {
            lemma_quotient(self@, level as nat, whole as int, frac@);
        }
        Some(whole as u32)
    }
}

/// A whole part and a fraction written in base `den` that together make
/// `scaled(level)` pin the whole part down as the threshold.
proof fn lemma_quotient(c: CurveModel, level: nat, whole: int, frac: Seq<u32>)
    requires
        c.valid(),
        frac.len() == level,
        digits_below(frac, c.den as int),
        whole * pow(c.den as int, level) + digits_value(frac, c.den as int) == c.scaled(level),
    ensures
        whole == c.threshold(level),
{
    let d = c.den as int;
    lemma_digits_bound(frac, d);
    lemma_pow_positive(d, level);
    lemma_fundamental_div_mod_converse(
        c.scaled(level),
        pow(d, level),
        whole,
        digits_value(frac, d),
    );
}

} // verus!
