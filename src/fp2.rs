use vstd::prelude::*;

verus! {

/// The prime modulus of the base field. It is 3 modulo 4, so -1 is not a square
/// and the base field extended by `i` with `i * i == -1` is a field.
pub const MODULUS: u64 = 4294967291;

/// A residue of the base field: reduced below the modulus.
pub open spec fn fp_wf(v: u64) -> bool {
    v < MODULUS
}

pub open spec fn fp_add(x: u64, y: u64) -> u64 {
    ((x + y) % (MODULUS as int)) as u64
}

pub open spec fn fp_sub(x: u64, y: u64) -> u64 {
    ((x - y) % (MODULUS as int)) as u64
}

pub open spec fn fp_neg(x: u64) -> u64 {
    ((0 - x) % (MODULUS as int)) as u64
}

pub open spec fn fp_mul(x: u64, y: u64) -> u64 {
    ((x * y) % (MODULUS as int)) as u64
}

fn fp_add_exec(x: u64, y: u64) -> (r: u64)
    requires
        fp_wf(x),
        fp_wf(y),
    ensures
        r == fp_add(x, y),
        fp_wf(r),
{
    (x + y) % MODULUS
}

fn fp_sub_exec(x: u64, y: u64) -> (r: u64)
    requires
        fp_wf(x),
        fp_wf(y),
    ensures
        r == fp_sub(x, y),
        fp_wf(r),
{
    proof {
        vstd::arithmetic::div_mod::lemma_mod_add_multiples_vanish(x - y, MODULUS as int);
    }
    (x + MODULUS - y) % MODULUS
}

fn fp_mul_exec(x: u64, y: u64) -> (r: u64)
    requires
        fp_wf(x),
        fp_wf(y),
    ensures
        r == fp_mul(x, y),
        fp_wf(r),
{
    assert(x * y < MODULUS * MODULUS) by (nonlinear_arith)
        requires
            x < MODULUS,
            y < MODULUS,
    ;
    (x * y) % MODULUS
}

/// An element `a + b*i` of the quadratic extension field, `i * i == -1`.
#[derive(Clone, Copy, Debug, PartialEq, Eq, Structural)]
pub struct FP2 {
    pub a: u64,
    pub b: u64,
}

pub open spec fn f2_zero() -> FP2 {
    FP2 { a: 0, b: 0 }
}

pub open spec fn f2_one() -> FP2 {
    FP2 { a: 1, b: 0 }
}

pub open spec fn f2_add(x: FP2, y: FP2) -> FP2 {
    FP2 { a: fp_add(x.a, y.a), b: fp_add(x.b, y.b) }
}

pub open spec fn f2_sub(x: FP2, y: FP2) -> FP2 {
    FP2 { a: fp_sub(x.a, y.a), b: fp_sub(x.b, y.b) }
}

pub open spec fn f2_neg(x: FP2) -> FP2 {
    FP2 { a: fp_neg(x.a), b: fp_neg(x.b) }
}

/// `(a + b*i) * (c + d*i) == (a*c - b*d) + (a*d + b*c)*i`
pub open spec fn f2_mul(x: FP2, y: FP2) -> FP2 {
    FP2 {
        a: fp_sub(fp_mul(x.a, y.a), fp_mul(x.b, y.b)),
        b: fp_add(fp_mul(x.a, y.b), fp_mul(x.b, y.a)),
    }
}

impl FP2 {
    /// Both components are reduced residues.
    pub open spec fn wf(&self) -> bool {
        fp_wf(self.a) && fp_wf(self.b)
    }

    /// The element `a + b*i`, each component reduced modulo the field prime.
    pub fn new(a: u64, b: u64) -> (r: FP2)
        ensures
            r.a == a % MODULUS,
            r.b == b % MODULUS,
            r.wf(),
    {
        FP2 { a: a % MODULUS, b: b % MODULUS }
    }

    pub fn zero() -> (r: FP2)
        ensures
            r == f2_zero(),
            r.wf(),
    {
        FP2 { a: 0, b: 0 }
    }

    pub fn one() -> (r: FP2)
        ensures
            r == f2_one(),
            r.wf(),
    {
        FP2 { a: 1, b: 0 }
    }

    pub fn is_zero(&self) -> (r: bool)
        ensures
            r == (*self == f2_zero()),
    {
        self.a == 0 && self.b == 0
    }

    pub fn add(&self, y: &FP2) -> (r: FP2)
        requires
            self.wf(),
            y.wf(),
        ensures
            r == f2_add(*self, *y),
            r.wf(),
    {
        FP2 { a: fp_add_exec(self.a, y.a), b: fp_add_exec(self.b, y.b) }
    }

    pub fn sub(&self, y: &FP2) -> (r: FP2)
        requires
            self.wf(),
            y.wf(),
        ensures
            r == f2_sub(*self, *y),
            r.wf(),
    {
        FP2 { a: fp_sub_exec(self.a, y.a), b: fp_sub_exec(self.b, y.b) }
    }

    pub fn neg(&self) -> (r: FP2)
        requires
            self.wf(),
        ensures
            r == f2_neg(*self),
            r.wf(),
    {
        FP2 { a: fp_sub_exec(0, self.a), b: fp_sub_exec(0, self.b) }
    }

    pub fn mul(&self, y: &FP2) -> (r: FP2)
        requires
            self.wf(),
            y.wf(),
        ensures
            r == f2_mul(*self, *y),
            r.wf(),
    {
        let ac = fp_mul_exec(self.a, y.a);
        let bd = fp_mul_exec(self.b, y.b);
        let ad = fp_mul_exec(self.a, y.b);
        let bc = fp_mul_exec(self.b, y.a);
        FP2 { a: fp_sub_exec(ac, bd), b: fp_add_exec(ad, bc) }
    }
}

pub proof fn lemma_fp_neg_mul(x: u64, w: u64)
    requires
        fp_wf(x),
        fp_wf(w),
    ensures
        fp_mul(fp_neg(x), w) == fp_neg(fp_mul(x, w)),
{
    let m = MODULUS as int;
    vstd::arithmetic::div_mod::lemma_mul_mod_noop_left(-x, w as int, m);
    vstd::arithmetic::div_mod::lemma_sub_mod_noop_right(0, x * w, m);
    assert((-x) * w == -(x * w)) by (nonlinear_arith);
}

pub proof fn lemma_fp_neg_sub(x: u64, y: u64)
    requires
        fp_wf(x),
        fp_wf(y),
    ensures
        fp_sub(fp_neg(x), fp_neg(y)) == fp_neg(fp_sub(x, y)),
{
    let m = MODULUS as int;
    vstd::arithmetic::div_mod::lemma_sub_mod_noop(-x, -y, m);
    vstd::arithmetic::div_mod::lemma_sub_mod_noop_right(0, x - y, m);
}

pub proof fn lemma_fp_neg_add(x: u64, y: u64)
    requires
        fp_wf(x),
        fp_wf(y),
    ensures
        fp_add(fp_neg(x), fp_neg(y)) == fp_neg(fp_add(x, y)),
{
    let m = MODULUS as int;
    vstd::arithmetic::div_mod::lemma_add_mod_noop(-x, -y, m);
    vstd::arithmetic::div_mod::lemma_sub_mod_noop_right(0, x + y, m);
}

pub proof fn lemma_fp_add_neg(x: u64)
    requires
        fp_wf(x),
    ensures
        fp_add(x, fp_neg(x)) == 0,
{
    vstd::arithmetic::div_mod::lemma_add_mod_noop_right(x as int, -x, MODULUS as int);
}

/// `(-y) * w == -(y * w)`
pub proof fn lemma_f2_neg_mul(y: FP2, w: FP2)
    requires
        y.wf(),
        w.wf(),
    ensures
        f2_mul(f2_neg(y), w) == f2_neg(f2_mul(y, w)),
{
    lemma_fp_neg_mul(y.a, w.a);
    lemma_fp_neg_mul(y.b, w.b);
    lemma_fp_neg_mul(y.a, w.b);
    lemma_fp_neg_mul(y.b, w.a);
    lemma_fp_neg_sub(fp_mul(y.a, w.a), fp_mul(y.b, w.b));
    lemma_fp_neg_add(fp_mul(y.a, w.b), fp_mul(y.b, w.a));
}

/// `v + (-v) == 0`
pub proof fn lemma_f2_add_neg(v: FP2)
    requires
        v.wf(),
    ensures
        f2_add(v, f2_neg(v)) == f2_zero(),
{
    lemma_fp_add_neg(v.a);
    lemma_fp_add_neg(v.b);
}

proof fn lemma_fp_mul_comm(x: u64, y: u64)
    ensures
        fp_mul(x, y) == fp_mul(y, x),
{
    assert(x * y == y * x) by (nonlinear_arith);
}

/// `y - x == -(x - y)`
proof fn lemma_fp_sub_swap(x: u64, y: u64)
    requires
        fp_wf(x),
        fp_wf(y),
    ensures
        fp_sub(y, x) == fp_neg(fp_sub(x, y)),
{
    vstd::arithmetic::div_mod::lemma_sub_mod_noop_right(0, x - y, MODULUS as int);
}

proof fn lemma_fp_neg_neg(x: u64)
    requires
        fp_wf(x),
    ensures
        fp_neg(fp_neg(x)) == x,
{
    vstd::arithmetic::div_mod::lemma_sub_mod_noop_right(0, 0 - x, MODULUS as int);
}

/// `(x - y) * c == x*c - y*c`, for the products that make up one component.
proof fn lemma_fp_mul_sub_pair(aa: u64, ba: u64, ca: u64, ab: u64, bb: u64, cb: u64)
    requires
        fp_wf(aa),
        fp_wf(ba),
        fp_wf(ca),
        fp_wf(ab),
        fp_wf(bb),
        fp_wf(cb),
    ensures
        fp_sub(fp_mul(fp_sub(aa, ba), ca), fp_mul(fp_sub(ab, bb), cb)) == fp_sub(
            fp_sub(fp_mul(aa, ca), fp_mul(ab, cb)),
            fp_sub(fp_mul(ba, ca), fp_mul(bb, cb)),
        ),
        fp_add(fp_mul(fp_sub(aa, ba), cb), fp_mul(fp_sub(ab, bb), ca)) == fp_sub(
            fp_add(fp_mul(aa, cb), fp_mul(ab, ca)),
            fp_add(fp_mul(ba, cb), fp_mul(bb, ca)),
        ),
{
    let m = MODULUS as int;
    vstd::arithmetic::div_mod::lemma_mul_mod_noop_left(aa - ba, ca as int, m);
    vstd::arithmetic::div_mod::lemma_mul_mod_noop_left(ab - bb, cb as int, m);
    vstd::arithmetic::div_mod::lemma_mul_mod_noop_left(aa - ba, cb as int, m);
    vstd::arithmetic::div_mod::lemma_mul_mod_noop_left(ab - bb, ca as int, m);
    vstd::arithmetic::div_mod::lemma_sub_mod_noop((aa - ba) * ca, (ab - bb) * cb, m);
    vstd::arithmetic::div_mod::lemma_add_mod_noop((aa - ba) * cb, (ab - bb) * ca, m);
    vstd::arithmetic::div_mod::lemma_sub_mod_noop(aa * ca, ab * cb, m);
    vstd::arithmetic::div_mod::lemma_sub_mod_noop(ba * ca, bb * cb, m);
    vstd::arithmetic::div_mod::lemma_add_mod_noop(aa * cb, ab * ca, m);
    vstd::arithmetic::div_mod::lemma_add_mod_noop(ba * cb, bb * ca, m);
    vstd::arithmetic::div_mod::lemma_sub_mod_noop(aa * ca - ab * cb, ba * ca - bb * cb, m);
    vstd::arithmetic::div_mod::lemma_sub_mod_noop(aa * cb + ab * ca, ba * cb + bb * ca, m);
    assert((aa - ba) * ca - (ab - bb) * cb == (aa * ca - ab * cb) - (ba * ca - bb * cb))
        by (nonlinear_arith);
    assert((aa - ba) * cb + (ab - bb) * ca == (aa * cb + ab * ca) - (ba * cb + bb * ca))
        by (nonlinear_arith);
}

pub proof fn lemma_f2_mul_comm(x: FP2, y: FP2)
    ensures
        f2_mul(x, y) == f2_mul(y, x),
{
    lemma_fp_mul_comm(x.a, y.a);
    lemma_fp_mul_comm(x.b, y.b);
    lemma_fp_mul_comm(x.a, y.b);
    lemma_fp_mul_comm(x.b, y.a);
}

/// `y - x == -(x - y)`
pub proof fn lemma_f2_sub_swap(x: FP2, y: FP2)
    requires
        x.wf(),
        y.wf(),
    ensures
        f2_sub(y, x) == f2_neg(f2_sub(x, y)),
{
    lemma_fp_sub_swap(x.a, y.a);
    lemma_fp_sub_swap(x.b, y.b);
}

pub proof fn lemma_f2_neg_neg(x: FP2)
    requires
        x.wf(),
    ensures
        f2_neg(f2_neg(x)) == x,
{
    lemma_fp_neg_neg(x.a);
    lemma_fp_neg_neg(x.b);
}

/// `(x - y) * c == x*c - y*c`
pub proof fn lemma_f2_mul_sub(x: FP2, y: FP2, c: FP2)
    requires
        x.wf(),
        y.wf(),
        c.wf(),
    ensures
        f2_mul(f2_sub(x, y), c) == f2_sub(f2_mul(x, c), f2_mul(y, c)),
{
    lemma_fp_mul_sub_pair(x.a, y.a, c.a, x.b, y.b, c.b);
}

proof fn lemma_fp_lin_x(a: u64, b: u64, c: u64)
    requires
        fp_wf(a),
        fp_wf(b),
        fp_wf(c),
    ensures
        fp_sub(fp_sub(a, fp_neg(fp_sub(b, c))), fp_add(b, b)) == fp_sub(
            fp_sub(a, fp_sub(b, c)),
            fp_add(c, c),
        ),
{
    let m = MODULUS as int;
    vstd::arithmetic::div_mod::lemma_sub_mod_noop_right(0, b - c, m);
    vstd::arithmetic::div_mod::lemma_sub_mod_noop_right(a as int, 0 - (b - c), m);
    vstd::arithmetic::div_mod::lemma_sub_mod_noop(a - (0 - (b - c)), b + b, m);
    vstd::arithmetic::div_mod::lemma_sub_mod_noop_right(a as int, b - c, m);
    vstd::arithmetic::div_mod::lemma_sub_mod_noop(a - (b - c), c + c, m);
}

proof fn lemma_fp_lin_y(rb: u64, rc: u64, rx: u64, s1: u64, s2: u64)
    requires
        fp_wf(rb),
        fp_wf(rc),
        fp_wf(rx),
        fp_wf(s1),
        fp_wf(s2),
        fp_sub(rb, rc) == fp_sub(s2, s1),
    ensures
        fp_sub(fp_neg(fp_sub(rb, rx)), fp_neg(s2)) == fp_neg(fp_sub(fp_sub(rc, rx), s1)),
{
    let m = MODULUS as int;
    let c = rx + s2 - rc;
    assert(fp_neg(fp_sub(rb, rx)) as int == (0 - (rb - rx)) % m) by {
        vstd::arithmetic::div_mod::lemma_sub_mod_noop_right(0, rb - rx, m);
    }
    assert(fp_sub(fp_neg(fp_sub(rb, rx)), fp_neg(s2)) as int == (c - (rb - rc)) % m) by {
        vstd::arithmetic::div_mod::lemma_sub_mod_noop(0 - (rb - rx), 0 - s2, m);
        assert(0 - (rb - rx) - (0 - s2) == c - (rb - rc));
    }
    assert(fp_sub(fp_sub(rc, rx), s1) as int == (rc - rx - s1) % m) by {
        vstd::arithmetic::div_mod::lemma_sub_mod_noop(rc - rx, s1 as int, m);
    }
    assert(fp_neg(fp_sub(fp_sub(rc, rx), s1)) as int == (c - (s2 - s1)) % m) by {
        vstd::arithmetic::div_mod::lemma_sub_mod_noop_right(0, rc - rx - s1, m);
        assert(0 - (rc - rx - s1) == c - (s2 - s1));
    }
    assert((c - (rb - rc)) % m == (c - (s2 - s1)) % m) by {
        vstd::arithmetic::div_mod::lemma_sub_mod_noop(c, rb - rc, m);
        vstd::arithmetic::div_mod::lemma_sub_mod_noop(c, s2 - s1, m);
    }
}

/// `(a + (b - c)) - 2b == (a - (b - c)) - 2c`
pub proof fn lemma_f2_lin_x(a: FP2, b: FP2, c: FP2)
    requires
        a.wf(),
        b.wf(),
        c.wf(),
    ensures
        f2_sub(f2_sub(a, f2_neg(f2_sub(b, c))), f2_add(b, b)) == f2_sub(
            f2_sub(a, f2_sub(b, c)),
            f2_add(c, c),
        ),
{
    lemma_fp_lin_x(a.a, b.a, c.a);
    lemma_fp_lin_x(a.b, b.b, c.b);
}

/// With `rb - rc == s2 - s1`: `-(rb - rx) + s2 == -((rc - rx) - s1)`
pub proof fn lemma_f2_lin_y(rb: FP2, rc: FP2, rx: FP2, s1: FP2, s2: FP2)
    requires
        rb.wf(),
        rc.wf(),
        rx.wf(),
        s1.wf(),
        s2.wf(),
        f2_sub(rb, rc) == f2_sub(s2, s1),
    ensures
        f2_sub(f2_neg(f2_sub(rb, rx)), f2_neg(s2)) == f2_neg(f2_sub(f2_sub(rc, rx), s1)),
{
    lemma_fp_lin_y(rb.a, rc.a, rx.a, s1.a, s2.a);
    lemma_fp_lin_y(rb.b, rc.b, rx.b, s1.b, s2.b);
}

} // verus!
