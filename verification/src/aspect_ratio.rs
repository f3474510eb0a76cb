//! Aspect ratios in lowest terms, their `WxH` text form and their order.
use vstd::prelude::*;
use std::cmp::Ordering;

use crate::text::{
    chars_of, decimal, lemma_decimal_no_sep, lemma_parse_decimal, lemma_parsed_values_push,
    lemma_split_by_sep_then, lemma_split_by_single, parsed_values, push_literal, split_by,
    write_decimal,
};

verus! {

/// The text of an aspect ratio did not hold two numbers.
#[derive(Debug, Clone, Copy, PartialEq, Eq, Structural)]
pub enum AspectRatioError {
    InvalidAspectRatio,
}

/// A width to height ratio, kept in lowest terms by `AspectRatio::new`.
#[derive(Debug, Clone, Copy, PartialEq, Eq, Hash, Structural)]
pub struct AspectRatio {
    pub w: u32,
    pub h: u32,
}

/// Euclid's greatest common divisor.
pub open spec fn gcd(a: nat, b: nat) -> nat
    decreases b,
{
    if b == 0 {
        a
    } else {
        gcd(b, a % b)
    }
}

pub open spec fn divides(d: nat, a: nat) -> bool {
    exists|k: nat| #[trigger] (k * d) == a
}

/// The ratio `width:height` divided by the greatest common divisor.
pub open spec fn reduced(width: nat, height: nat) -> AspectRatio {
    let g = gcd(width, height);
    AspectRatio { w: (width / g) as u32, h: (height / g) as u32 }
}

/// `a` is a narrower ratio than `b`: `a.w / a.h < b.w / b.h`, compared
/// exactly by cross-multiplication.
pub open spec fn ratio_lt(a: AspectRatio, b: AspectRatio) -> bool {
    a.w * b.h < b.w * a.h
}

pub open spec fn ratio_le(a: AspectRatio, b: AspectRatio) -> bool {
    a.w * b.h <= b.w * a.h
}

pub open spec fn is_ratio_sep(c: char) -> bool {
    c == 'x'
}

/// The text form `WxH`.
pub open spec fn ratio_text(r: AspectRatio) -> Seq<char> {
    decimal(r.w as nat).push('x') + decimal(r.h as nat)
}

/// The numbers that reading a ratio finds: the text is split at every `x`
/// and the pieces that are `u32` numbers are kept.
pub open spec fn ratio_parts(s: Seq<char>) -> Seq<u32> {
    parsed_values(split_by(s, |c: char| is_ratio_sep(c)))
}

/// Reading a ratio: exactly two numbers must be found; they are reduced to
/// lowest terms.
pub open spec fn parse_ratio(s: Seq<char>) -> Result<AspectRatio, AspectRatioError> {
    let v = ratio_parts(s);
    if v.len() == 2 {
        Ok(reduced(v[0] as nat, v[1] as nat))
    } else {
        Err(AspectRatioError::InvalidAspectRatio)
    }
}

/// Text that reads as a ratio other than `0x0`.
pub open spec fn ratio_text_ok(p: Seq<char>) -> bool {
    &&& ratio_parts(p).len() == 2
    &&& !(ratio_parts(p)[0] == 0 && ratio_parts(p)[1] == 0)
}

proof fn lemma_divides_le(d: nat, a: nat)
    requires
        divides(d, a),
        a > 0,
    ensures
        d <= a,
{
    let k = choose|k: nat| #[trigger] (k * d) == a;
    assert(d <= a) by (nonlinear_arith)
        requires
            k * d == a,
            a > 0,
    ;
}

/// The greatest common divisor divides both numbers, every common divisor
/// divides it, and it is zero only for two zeros.
pub proof fn lemma_gcd(a: nat, b: nat)
    ensures
        divides(gcd(a, b), a),
        divides(gcd(a, b), b),
        forall|d: nat| divides(d, a) && divides(d, b) ==> divides(d, gcd(a, b)),
        gcd(a, b) == 0 <==> (a == 0 && b == 0),
    decreases b,
{
    if b == 0 {
        assert(1 * a == a);
        assert(0 * a == 0);
    } else {
        let r = a % b;
        let q = a / b;
        lemma_gcd(b, r);
        let g = gcd(b, r);
        assert(a == q * b + r) by (nonlinear_arith)
            requires
                r == a % b,
                q == a / b,
                b > 0,
        ;
        let k1 = choose|k: nat| #[trigger] (k * g) == b;
        let k2 = choose|k: nat| #[trigger] (k * g) == r;
        assert((q * k1 + k2) * g == a) by (nonlinear_arith)
            requires
                k1 * g == b,
                k2 * g == r,
                a == q * b + r,
        ;
        assert(divides(g, a));
        assert forall|d: nat| divides(d, a) && divides(d, b) implies divides(d, g) by {
            let m1 = choose|k: nat| #[trigger] (k * d) == a;
            let m2 = choose|k: nat| #[trigger] (k * d) == b;
            assert(m1 * d == q * m2 * d + r) by (nonlinear_arith)
                requires
                    m1 * d == a,
                    m2 * d == b,
                    a == q * b + r,
            ;
            if d > 0 {
                assert(m1 >= q * m2) by (nonlinear_arith)
                    requires
                        m1 * d == q * m2 * d + r,
                        d > 0,
                        r >= 0,
                ;
                let m3 = (m1 - q * m2) as nat;
                assert(m3 * d == r) by (nonlinear_arith)
                    requires
                        m1 * d == q * m2 * d + r,
                        m3 == m1 - q * m2,
                ;
                assert(divides(d, r));
            } else {
                assert(b == 0) by (nonlinear_arith)
                    requires
                        m2 * d == b,
                        d == 0,
                ;
            }
        }
        if g == 0 {
            assert(b == 0);
        }
    }
}

proof fn lemma_div_exact(a: nat, g: nat)
    requires
        divides(g, a),
        g > 0,
    ensures
        (a / g) * g == a,
{
    let k = choose|k: nat| #[trigger] (k * g) == a;
    assert(a / g == k) by (nonlinear_arith)
        requires
            k * g == a,
            g > 0,
    ;
}

/// Reducing a ratio gives lowest terms and keeps the ratio.
pub proof fn lemma_reduced(a: nat, b: nat)
    requires
        !(a == 0 && b == 0),
        a <= u32::MAX,
        b <= u32::MAX,
    ensures
        gcd(reduced(a, b).w as nat, reduced(a, b).h as nat) == 1,
        reduced(a, b).w * b == a * reduced(a, b).h,
        reduced(a, b).w <= a,
        reduced(a, b).h <= b,
{
    lemma_gcd(a, b);
    let g = gcd(a, b);
    assert(g > 0);
    let a1 = a / g;
    let b1 = b / g;
    lemma_div_exact(a, g);
    lemma_div_exact(b, g);
    assert(a1 <= a && b1 <= b) by (nonlinear_arith)
        requires
            a1 * g == a,
            b1 * g == b,
            g > 0,
    ;
    lemma_gcd(a1, b1);
    let h = gcd(a1, b1);
    let k1 = choose|k: nat| #[trigger] (k * h) == a1;
    let k2 = choose|k: nat| #[trigger] (k * h) == b1;
    assert(k1 * (h * g) == a) by (nonlinear_arith)
        requires
            k1 * h == a1,
            a1 * g == a,
    ;
    assert(k2 * (h * g) == b) by (nonlinear_arith)
        requires
            k2 * h == b1,
            b1 * g == b,
    ;
    assert(divides(h * g, a));
    assert(divides(h * g, b));
    assert(divides(h * g, g));
    lemma_divides_le(h * g, g);
    assert(h <= 1) by (nonlinear_arith)
        requires
            h * g <= g,
            g > 0,
    ;
    assert(!(a1 == 0 && b1 == 0)) by (nonlinear_arith)
        requires
            a1 * g == a,
            b1 * g == b,
            !(a == 0 && b == 0),
    ;
    assert(a1 * b == a * b1) by (nonlinear_arith)
        requires
            a1 * g == a,
            b1 * g == b,
    ;
}

/// A ratio in lowest terms is its own reduction.
pub proof fn lemma_reduced_of_lowest_terms(r: AspectRatio)
    requires
        gcd(r.w as nat, r.h as nat) == 1,
    ensures
        reduced(r.w as nat, r.h as nat) == r,
{
}

/// Reducing twice is reducing once.
pub proof fn lemma_reduced_idempotent(a: nat, b: nat)
    requires
        !(a == 0 && b == 0),
        a <= u32::MAX,
        b <= u32::MAX,
    ensures
        reduced(reduced(a, b).w as nat, reduced(a, b).h as nat) == reduced(a, b),
{
    lemma_reduced(a, b);
}

fn gcd_exec(a: u32, b: u32) -> (r: u32)
    ensures
        r == gcd(a as nat, b as nat),
{
    let ghost a0 = a;
    let ghost b0 = b;
    let mut a = a;
    let mut b = b;
    while b != 0
        invariant
            gcd(a as nat, b as nat) == gcd(a0 as nat, b0 as nat),
        decreases b,
    {
        let tmp = b;
        b = a % b;
        a = tmp;
    }
    a
}

fn cross_products(a: &AspectRatio, b: &AspectRatio) -> (r: (u64, u64))
    ensures
        r.0 == a.w * b.h,
        r.1 == b.w * a.h,
{
    let aw = a.w as u64;
    let ah = a.h as u64;
    let bw = b.w as u64;
    let bh = b.h as u64;
    assert(aw * bh <= 0xFFFF_FFFF * 0xFFFF_FFFF) by (nonlinear_arith)
        requires
            aw <= 0xFFFF_FFFF,
            bh <= 0xFFFF_FFFF,
    ;
    assert(bw * ah <= 0xFFFF_FFFF * 0xFFFF_FFFF) by (nonlinear_arith)
        requires
            bw <= 0xFFFF_FFFF,
            ah <= 0xFFFF_FFFF,
    ;
    let p = aw * bh;
    let q = bw * ah;
    (p, q)
}

impl AspectRatio {
    /// The ratio `width:height` in lowest terms.
    pub fn new(width: u32, height: u32) -> (r: AspectRatio)
        requires
            !(width == 0 && height == 0),
        ensures
            r == reduced(width as nat, height as nat),
    {
        let divisor = gcd_exec(width, height);
        proof {
            lemma_gcd(width as nat, height as nat);
        }
        AspectRatio { w: width / divisor, h: height / divisor }
    }

    /// Orders ratios by `w / h`, compared exactly.
    pub fn compare(&self, other: &AspectRatio) -> (r: Ordering)
        ensures
            (r == Ordering::Less) == ratio_lt(*self, *other),
            (r == Ordering::Greater) == ratio_lt(*other, *self),
            (r == Ordering::Equal) == (self.w * other.h == other.w * self.h),
    {
        let (p, q) = cross_products(self, other);
        if p < q {
            Ordering::Less
        } else if p > q {
            Ordering::Greater
        } else {
            Ordering::Equal
        }
    }

    /// `self.w / self.h <= other.w / other.h`, compared exactly.
    pub fn le(&self, other: &AspectRatio) -> (r: bool)
        ensures
            r == ratio_le(*self, *other),
    {
        let (p, q) = cross_products(self, other);
        p <= q
    }

    /// Reads the `WxH` text form and reduces it to lowest terms.
    pub fn try_from(s: &str) -> (r: Result<AspectRatio, AspectRatioError>)
        requires
            !(ratio_parts(s@).len() == 2 && ratio_parts(s@)[0] == 0 && ratio_parts(s@)[1] == 0),
        ensures
            r == parse_ratio(s@),
    {
        let chars = chars_of(s);
        let mut seps: Vec<char> = Vec::new();
        seps.push('x');
        let ghost is_sep = |c: char| is_ratio_sep(c);
        assert forall|c: char| is_sep(c) <==> seps@.contains(c) by {
            if c == 'x' {
                assert(seps@[0] == c);
            }
        }
        let v = crate::text::split_parse_u32(&chars, &seps, Ghost(is_sep));
        if v.len() != 2 {
            return Err(AspectRatioError::InvalidAspectRatio);
        }
        Ok(AspectRatio::new(v[0], v[1]))
    }

    /// Reads the `WxH` text form, unless it does not hold two numbers or
    /// holds `0x0`.
    pub fn try_from_nonzero(s: &str) -> (r: Option<AspectRatio>)
        ensures
            r == (if ratio_text_ok(s@) {
                Some(reduced(ratio_parts(s@)[0] as nat, ratio_parts(s@)[1] as nat))
            } else {
                None::<AspectRatio>
            }),
    {
        let chars = chars_of(s);
        let mut seps: Vec<char> = Vec::new();
        seps.push('x');
        let ghost is_sep = |c: char| is_ratio_sep(c);
        assert forall|c: char| is_sep(c) <==> seps@.contains(c) by {
            if c == 'x' {
                assert(seps@[0] == c);
            }
        }
        let v = crate::text::split_parse_u32(&chars, &seps, Ghost(is_sep));
        if v.len() != 2 || (v[0] == 0 && v[1] == 0) {
            return None;
        }
        Some(AspectRatio::new(v[0], v[1]))
    }

    /// The `WxH` text form.
    pub fn to_string(&self) -> (r: String)
        ensures
            r@ == ratio_text(*self),
    {
        let mut out = String::new();
        write_decimal(&mut out, self.w as u64);
        proof {
            reveal_strlit("x");
        }
        push_literal(&mut out, "x");
        write_decimal(&mut out, self.h as u64);
        assert(out@ =~= ratio_text(*self));
        out
    }
}

/// Writing a ratio in lowest terms as text and reading it back gives the
/// same ratio.
pub proof fn lemma_ratio_text_roundtrip(r: AspectRatio)
    requires
        gcd(r.w as nat, r.h as nat) == 1,
    ensures
        ratio_parts(ratio_text(r)) == seq![r.w, r.h],
        parse_ratio(ratio_text(r)) == Ok::<AspectRatio, AspectRatioError>(r),
{
    let is_sep = |c: char| is_ratio_sep(c);
    let dw = decimal(r.w as nat);
    let dh = decimal(r.h as nat);
    lemma_decimal_no_sep(r.w as nat, is_sep);
    lemma_decimal_no_sep(r.h as nat, is_sep);
    let t2 = dw.push('x') + dh;
    assert(t2 =~= ratio_text(r));
    lemma_split_by_single(dw, is_sep);
    lemma_split_by_sep_then(dw, 'x', dh, is_sep);
    assert(split_by(t2, is_sep) == seq![dw].push(dh));
    lemma_parse_decimal(r.w);
    lemma_parse_decimal(r.h);
    assert(seq![dw] =~= Seq::<Seq<char>>::empty().push(dw));
    lemma_parsed_values_push(Seq::<Seq<char>>::empty(), dw);
    lemma_parsed_values_push(seq![dw], dh);
    assert(ratio_parts(t2) =~= seq![r.w, r.h]);
    lemma_reduced_of_lowest_terms(r);
}

/// The exact ratio order is a total preorder on ratios other than `0x0`.
pub proof fn lemma_ratio_le_total_preorder(a: AspectRatio, b: AspectRatio, c: AspectRatio)
    requires
        !(a.w == 0 && a.h == 0),
        !(b.w == 0 && b.h == 0),
        !(c.w == 0 && c.h == 0),
    ensures
        ratio_le(a, a),
        ratio_le(a, b) || ratio_le(b, a),
        ratio_le(a, b) && ratio_le(b, c) ==> ratio_le(a, c),
        ratio_lt(a, b) <==> !ratio_le(b, a),
{
    assert(ratio_le(a, b) && ratio_le(b, c) ==> ratio_le(a, c)) by (nonlinear_arith)
        requires
            !(a.w == 0 && a.h == 0),
            !(b.w == 0 && b.h == 0),
            !(c.w == 0 && c.h == 0),
    ;
}

} // verus!
