use vstd::prelude::*;
use vstd::arithmetic::power2::pow2;
use crate::big::{big_val, BIG};
use crate::fp2::{f2_add, f2_mul, f2_neg, f2_one, f2_sub, f2_zero, FP2, MODULUS};
use crate::hex::{join, next_tok, parse_flag, parse_flag_range, push_hex, read_fields, Tokens};
use vstd::string::StringExecFns;
use crate::octet::{be_u64, push_u64_be, read_u64_be, u64_be, Octet};

verus! {

/// A point of the curve `y^2 = x^3 + b` over the extension field, in Jacobian
/// coordinates: `(x, y, z)` stands for the affine point `(x/z^2, y/z^3)`.
/// When `inf` is set the point is the group identity.
#[derive(Clone, Copy, Debug, PartialEq, Eq, Structural)]
pub struct ECP2 {
    pub inf: bool,
    pub x: FP2,
    pub y: FP2,
    pub z: FP2,
}

/// The group identity, with zero coordinates.
pub open spec fn inf_point() -> ECP2 {
    ECP2 { inf: true, x: f2_zero(), y: f2_zero(), z: f2_zero() }
}

pub open spec fn f2_dbl(v: FP2) -> FP2 {
    f2_add(v, v)
}

/// The additive inverse: `y` changes sign.
pub open spec fn spec_neg(p: ECP2) -> ECP2 {
    if p.inf {
        p
    } else {
        ECP2 { y: f2_neg(p.y), ..p }
    }
}

/// Doubling of a finite point (curve coefficient `a == 0`):
/// `S = 4*X*Y^2`, `M = 3*X^2`, `X' = M^2 - 2*S`, `Y' = M*(S - X') - 8*Y^4`, `Z' = 2*Y*Z`.
#[verifier::opaque]
pub open spec fn spec_double(p: ECP2) -> ECP2 {
    let yy = f2_mul(p.y, p.y);
    let s = f2_dbl(f2_dbl(f2_mul(p.x, yy)));
    let xx = f2_mul(p.x, p.x);
    let m = f2_add(f2_dbl(xx), xx);
    let x3 = f2_sub(f2_mul(m, m), f2_dbl(s));
    let y4_8 = f2_dbl(f2_dbl(f2_dbl(f2_mul(yy, yy))));
    let y3 = f2_sub(f2_mul(m, f2_sub(s, x3)), y4_8);
    let z3 = f2_dbl(f2_mul(p.y, p.z));
    ECP2 { inf: false, x: x3, y: y3, z: z3 }
}

/// The group law. With `U1 = X1*Z2^2`, `U2 = X2*Z1^2`, `S1 = Y1*Z2^3`, `S2 = Y2*Z1^3`:
/// equal `U`s mean equal affine `x`, so the points are equal or mutual inverses;
/// otherwise `H = U2 - U1`, `R = S2 - S1` and
/// `X3 = R^2 - H^3 - 2*U1*H^2`, `Y3 = R*(U1*H^2 - X3) - S1*H^3`, `Z3 = H*Z1*Z2`.
#[verifier::opaque]
pub open spec fn spec_add(p: ECP2, q: ECP2) -> ECP2 {
    if p.inf {
        q
    } else if q.inf {
        p
    } else {
        let z1z1 = f2_mul(p.z, p.z);
        let z2z2 = f2_mul(q.z, q.z);
        let u1 = f2_mul(p.x, z2z2);
        let u2 = f2_mul(q.x, z1z1);
        let s1 = f2_mul(p.y, f2_mul(q.z, z2z2));
        let s2 = f2_mul(q.y, f2_mul(p.z, z1z1));
        if u1 == u2 {
            if f2_add(s1, s2) == f2_zero() {
                inf_point()
            } else {
                spec_double(p)
            }
        } else {
            let h = f2_sub(u2, u1);
            let r = f2_sub(s2, s1);
            let hh = f2_mul(h, h);
            let hhh = f2_mul(h, hh);
            let v = f2_mul(u1, hh);
            let x3 = f2_sub(f2_sub(f2_mul(r, r), hhh), f2_dbl(v));
            let y3 = f2_sub(f2_mul(r, f2_sub(v, x3)), f2_mul(s1, hhh));
            let z3 = f2_mul(h, f2_mul(p.z, q.z));
            ECP2 { inf: false, x: x3, y: y3, z: z3 }
        }
    }
}

/// The Jacobian representative scaled by `-1`: `(X, Y, Z)` and
/// `((-1)^2 X, (-1)^3 Y, (-1) Z) == (X, -Y, -Z)` stand for the same affine point.
pub open spec fn rescale_neg(p: ECP2) -> ECP2 {
    ECP2 { y: f2_neg(p.y), z: f2_neg(p.z), ..p }
}

/// The affine `x` coordinates of two finite points differ: `X1*Z2^2 != X2*Z1^2`.
pub open spec fn distinct_x(p: ECP2, q: ECP2) -> bool {
    f2_mul(p.x, f2_mul(q.z, q.z)) != f2_mul(q.x, f2_mul(p.z, p.z))
}

/// The curve coefficient `b` of `y^2 = x^3 + b`: `4 + 26i`.
pub open spec fn curve_b() -> FP2 {
    FP2 { a: 4, b: 26 }
}

/// The point lies on the curve: an identity, or Jacobian coordinates with
/// `Y^2 == X^3 + b*Z^6`.
pub open spec fn on_curve(p: ECP2) -> bool {
    p.inf || {
        let zz = f2_mul(p.z, p.z);
        let z6 = f2_mul(zz, f2_mul(zz, zz));
        f2_mul(p.y, p.y) == f2_add(f2_mul(p.x, f2_mul(p.x, p.x)), f2_mul(curve_b(), z6))
    }
}

pub open spec fn spec_sub(p: ECP2, q: ECP2) -> ECP2 {
    spec_add(p, spec_neg(q))
}

/// Right-to-left binary scalar multiplication: `r + n*a`, one bit of `n` per step,
/// adding the current power `a` for a set bit and doubling `a` by addition.
#[verifier::opaque]
pub open spec fn ladder(r: ECP2, a: ECP2, n: nat) -> ECP2
    decreases n,
{
    if n == 0 {
        r
    } else {
        ladder(
            if n % 2 == 1 {
                spec_add(r, a)
            } else {
                r
            },
            spec_add(a, a),
            n / 2,
        )
    }
}

/// `n * p`.
pub open spec fn spec_mul(p: ECP2, n: nat) -> ECP2 {
    ladder(inf_point(), p, n)
}

/// Length of the binary encoding: one flag byte, then six 8-byte components.
pub const OCTET_LEN: usize = 49;

/// The binary encoding: a flag byte (1 for the identity, else 0), then
/// `x.a, x.b, y.a, y.b, z.a, z.b`, each as 8 bytes, most significant first.
pub open spec fn encode_point(p: ECP2) -> Seq<u8> {
    seq![
        if p.inf {
            1u8
        } else {
            0u8
        },
    ] + u64_be(p.x.a) + u64_be(p.x.b) + u64_be(p.y.a) + u64_be(p.y.b) + u64_be(p.z.a) + u64_be(
        p.z.b,
    )
}

/// The field component stored at `b[off..off + 8]`, reduced.
pub open spec fn fp_at(b: Seq<u8>, off: int) -> u64 {
    ((be_u64(b.subrange(off, off + 8)) as int) % (MODULUS as int)) as u64
}

/// Decoding of a buffer: none when it is shorter than `OCTET_LEN`; else the
/// point whose flag is set when the flag byte is not zero, with the stored
/// components, each reduced. Bytes past `OCTET_LEN` are not read.
pub open spec fn decode_point(b: Seq<u8>) -> Option<ECP2> {
    if b.len() < OCTET_LEN {
        None
    } else {
        Some(
            ECP2 {
                inf: b[0] != 0,
                x: FP2 { a: fp_at(b, 1), b: fp_at(b, 9) },
                y: FP2 { a: fp_at(b, 17), b: fp_at(b, 25) },
                z: FP2 { a: fp_at(b, 33), b: fp_at(b, 41) },
            },
        )
    }
}

/// The seven values of the text form: the flag (1 for the identity, else 0),
/// then `x.a, x.b, y.a, y.b, z.a, z.b`.
pub open spec fn fields_of(p: ECP2) -> Seq<u64> {
    seq![
        if p.inf {
            1u64
        } else {
            0u64
        },
        p.x.a,
        p.x.b,
        p.y.a,
        p.y.b,
        p.z.a,
        p.z.b,
    ]
}

/// The text form: the seven values in base 16, separated by single spaces.
pub open spec fn hex_text(p: ECP2) -> Seq<char> {
    join(fields_of(p))
}

/// The point of a flag and six values: the coordinates are the values, each
/// reduced.
pub open spec fn point_of_fields(inf: bool, v: Seq<u64>) -> ECP2 {
    ECP2 {
        inf,
        x: FP2 { a: v[0] % MODULUS, b: v[1] % MODULUS },
        y: FP2 { a: v[2] % MODULUS, b: v[3] % MODULUS },
        z: FP2 { a: v[4] % MODULUS, b: v[5] % MODULUS },
    }
}

/// The position after the flag token and the six coordinate tokens read from
/// `pos`, when all seven are well formed.
pub open spec fn hex_point_end(s: Seq<char>, pos: int) -> Option<int> {
    match next_tok(s, pos) {
        None => None,
        Some((a, b)) => match parse_flag(s.subrange(a, b)) {
            None => None,
            Some(_) => match read_fields(s, b, 6) {
                None => None,
                Some((_, e)) => Some(e),
            },
        },
    }
}

/// Decoding of the text form from position `pos`: a flag token, a signed
/// base-16 integer of 32 bits that sets the flag when it is not zero, then six
/// base-16 coordinate tokens. When a token is missing or malformed the result
/// is the identity with zero coordinates.
pub open spec fn decode_hex(s: Seq<char>, pos: int) -> ECP2 {
    match next_tok(s, pos) {
        None => inf_point(),
        Some((a, b)) => match parse_flag(s.subrange(a, b)) {
            None => inf_point(),
            Some(f) => match read_fields(s, b, 6) {
                None => inf_point(),
                Some((v, _)) => point_of_fields(f, v),
            },
        },
    }
}

impl ECP2 {
    /// Coordinates are reduced field elements. (The coordinates of an identity
    /// carry no meaning, but they are kept like any others.)
    pub open spec fn wf(&self) -> bool {
        &&& self.x.wf()
        &&& self.y.wf()
        &&& self.z.wf()
    }
}

/// The sum of well-formed points is well-formed.
pub proof fn lemma_add_wf(p: ECP2, q: ECP2)
    requires
        p.wf(),
        q.wf(),
    ensures
        spec_add(p, q).wf(),
{
    reveal(spec_add);
    reveal(spec_double);
}

fn infinity() -> (r: ECP2)
    ensures
        r == inf_point(),
        r.wf(),
{
    ECP2 { inf: true, x: FP2::zero(), y: FP2::zero(), z: FP2::zero() }
}

fn double(p: &ECP2) -> (r: ECP2)
    requires
        p.wf(),
    ensures
        r == spec_double(*p),
{
    reveal(spec_double);
    let yy = p.y.mul(&p.y);
    let xyy = p.x.mul(&yy);
    let s2 = xyy.add(&xyy);
    let s = s2.add(&s2);
    let xx = p.x.mul(&p.x);
    let xx2 = xx.add(&xx);
    let m = xx2.add(&xx);
    let s_2 = s.add(&s);
    let x3 = m.mul(&m).sub(&s_2);
    let y4 = yy.mul(&yy);
    let y4_2 = y4.add(&y4);
    let y4_4 = y4_2.add(&y4_2);
    let y4_8 = y4_4.add(&y4_4);
    let y3 = m.mul(&s.sub(&x3)).sub(&y4_8);
    let yz = p.y.mul(&p.z);
    let z3 = yz.add(&yz);
    ECP2 { inf: false, x: x3, y: y3, z: z3 }
}

fn add_points(p: &ECP2, q: &ECP2) -> (r: ECP2)
    requires
        p.wf(),
        q.wf(),
    ensures
        r == spec_add(*p, *q),
        r.wf(),
{
    proof {
        lemma_add_wf(*p, *q);
        reveal(spec_add);
    }
    if p.inf {
        return *q;
    }
    if q.inf {
        return *p;
    }
    let z1z1 = p.z.mul(&p.z);
    let z2z2 = q.z.mul(&q.z);
    let u1 = p.x.mul(&z2z2);
    let u2 = q.x.mul(&z1z1);
    let s1 = p.y.mul(&q.z.mul(&z2z2));
    let s2 = q.y.mul(&p.z.mul(&z1z1));
    if u1 == u2 {
        if s1.add(&s2).is_zero() {
            return infinity();
        } else {
            return double(p);
        }
    }
    let h = u2.sub(&u1);
    let r = s2.sub(&s1);
    let hh = h.mul(&h);
    let hhh = h.mul(&hh);
    let v = u1.mul(&hh);
    let v2 = v.add(&v);
    let x3 = r.mul(&r).sub(&hhh).sub(&v2);
    let y3 = r.mul(&v.sub(&x3)).sub(&s1.mul(&hhh));
    let z3 = h.mul(&p.z.mul(&q.z));
    ECP2 { inf: false, x: x3, y: y3, z: z3 }
}

fn neg_point(p: &ECP2) -> (r: ECP2)
    requires
        p.wf(),
    ensures
        r == spec_neg(*p),
        r.wf(),
{
    if p.inf {
        *p
    } else {
        ECP2 { inf: false, x: p.x, y: p.y.neg(), z: p.z }
    }
}

/// `a` when `bit` is 1, else `b`, chosen by masking rather than by a branch.
fn select_u64(bit: u64, a: u64, b: u64) -> (r: u64)
    requires
        bit <= 1,
    ensures
        r == if bit == 1 {
            a
        } else {
            b
        },
{
    let mask: u64 = bit * 0xffff_ffff_ffff_ffff;
    proof {
        if bit == 1 {
            assert(mask == 0xffff_ffff_ffff_ffffu64);
            assert((a & 0xffff_ffff_ffff_ffffu64) | (b & !0xffff_ffff_ffff_ffffu64) == a)
                by (bit_vector);
        } else {
            assert(mask == 0u64);
            assert((a & 0u64) | (b & !0u64) == b) by (bit_vector);
        }
    }
    (a & mask) | (b & !mask)
}

fn select_fp2(bit: u64, a: &FP2, b: &FP2) -> (r: FP2)
    requires
        bit <= 1,
    ensures
        r == if bit == 1 {
            *a
        } else {
            *b
        },
{
    FP2 { a: select_u64(bit, a.a, b.a), b: select_u64(bit, a.b, b.b) }
}

/// `a` when `bit` is 1, else `b`, with no branch on `bit`. (Turning a flag into
/// 0 or 1 may compile to a branch, but on the flag, not on `bit`.)
fn select_point(bit: u64, a: &ECP2, b: &ECP2) -> (r: ECP2)
    requires
        bit <= 1,
    ensures
        r == if bit == 1 {
            *a
        } else {
            *b
        },
{
    let ai: u64 = if a.inf { 1 } else { 0 };
    let bi: u64 = if b.inf { 1 } else { 0 };
    ECP2 {
        inf: select_u64(bit, ai, bi) != 0,
        x: select_fp2(bit, &a.x, &b.x),
        y: select_fp2(bit, &a.y, &b.y),
        z: select_fp2(bit, &a.z, &b.z),
    }
}

/// Scans the scalar's bits from the least significant, over every limb. Each bit
/// makes one addition and one doubling, whatever its value, and the sum is kept
/// or dropped by a masked select, not by a branch on the bit. The group law
/// itself still branches on the identity and on equal `x`, so the running time
/// is not guaranteed to be independent of the scalar.
fn mul_point(p: &ECP2, e: &BIG) -> (r: ECP2)
    requires
        p.wf(),
    ensures
        r == spec_mul(*p, e.value()),
        r.wf(),
{
    let mut r = infinity();
    let mut a = *p;
    let n = e.w.len();
    let mut i: usize = 0;
    proof {
        assert(e.w@.subrange(0, n as int) =~= e.w@);
    }
    while i < n
        invariant
            i <= n,
            n == e.w@.len(),
            r.wf(),
            a.wf(),
            ladder(r, a, big_val(e.w@.subrange(i as int, n as int))) == spec_mul(*p, e.value()),
        decreases n - i,
    {
        let ghost rest = big_val(e.w@.subrange(i + 1, n as int));
        proof {
            assert(e.w@.subrange(i as int, n as int).drop_first() =~= e.w@.subrange(
                i + 1,
                n as int,
            ));
            vstd::arithmetic::power2::lemma2_to64();
        }
        let mut w: u64 = e.w[i];
        let mut k: usize = 0;
        while k < 64
            invariant
                k <= 64,
                r.wf(),
                a.wf(),
                w < pow2((64 - k) as nat),
                ladder(r, a, (w + pow2((64 - k) as nat) * rest) as nat) == spec_mul(*p, e.value()),
            decreases 64 - k,
        {
            let ghost m: nat = (w + pow2((64 - k) as nat) * rest) as nat;
            let ghost c: nat = pow2((63 - k) as nat);
            proof {
                vstd::arithmetic::power2::lemma_pow2_unfold((64 - k) as nat);
                let t: nat = c * rest;
                assert(pow2((64 - k) as nat) * rest == 2 * t) by (nonlinear_arith)
                    requires
                        pow2((64 - k) as nat) == 2 * c,
                        t == c * rest,
                ;
                assert(m == w + 2 * t);
                assert(m % 2 == w % 2 && m / 2 == w / 2 + t);
                reveal(ladder);
            }
            let t = add_points(&r, &a);
            r = select_point(w % 2, &t, &r);
            a = add_points(&a, &a);
            w = w / 2;
            k = k + 1;
        }
        proof {
            vstd::arithmetic::power2::lemma2_to64();
            assert(k == 64);
            assert(pow2((64 - k) as nat) == 1);
            assert(w == 0);
            assert((w + pow2((64 - k) as nat) * rest) as nat == rest);
        }
        i = i + 1;
    }
    proof {
        assert(big_val(e.w@.subrange(n as int, n as int)) == 0);
        reveal(ladder);
    }
    r
}

impl ECP2 {
    /// Makes `p` the finite point with affine coordinates `(x, y)`, that is
    /// Jacobian `(x, y, 1)`. Curve membership is not validated.
    pub fn set(p: &mut ECP2, x: &FP2, y: &FP2)
        requires
            x.wf(),
            y.wf(),
        ensures
            *final(p) == (ECP2 { inf: false, x: *x, y: *y, z: f2_one() }),
            final(p).wf(),
    {
        *p = ECP2 { inf: false, x: *x, y: *y, z: FP2::one() };
    }

    /// Replaces `p` by `e * p`.
    pub fn mul(p: &mut ECP2, e: &BIG)
        requires
            old(p).wf(),
        ensures
            *final(p) == spec_mul(*old(p), e.value()),
            final(p).wf(),
    {
        *p = mul_point(p, e);
    }

    /// Replaces `p` by `p + q`.
    pub fn add(p: &mut ECP2, q: &ECP2)
        requires
            old(p).wf(),
            q.wf(),
        ensures
            *final(p) == spec_add(*old(p), *q),
            final(p).wf(),
    {
        *p = add_points(p, q);
    }

    /// Replaces `p` by `p - q`, the sum of `p` and the inverse of `q`.
    pub fn sub(p: &mut ECP2, q: &ECP2)
        requires
            old(p).wf(),
            q.wf(),
        ensures
            *final(p) == spec_sub(*old(p), *q),
            final(p).wf(),
    {
        let nq = neg_point(q);
        *p = add_points(p, &nq);
    }

    /// Writes the binary encoding of `p` into `w`, replacing its contents.
    pub fn toOctet(w: &mut Octet, p: &ECP2)
        ensures
            final(w).val@ == encode_point(*p),
            final(w).val@.len() == OCTET_LEN,
    {
        let mut out: Vec<u8> = Vec::new();
        out.push(if p.inf { 1u8 } else { 0u8 });
        push_u64_be(&mut out, p.x.a);
        push_u64_be(&mut out, p.x.b);
        push_u64_be(&mut out, p.y.a);
        push_u64_be(&mut out, p.y.b);
        push_u64_be(&mut out, p.z.a);
        push_u64_be(&mut out, p.z.b);
        w.val = out;
    }

    /// Reads a point from its binary encoding; none when `w` is too short.
    pub fn fromOctet(w: &Octet) -> (r: Option<ECP2>)
        ensures
            r == decode_point(w.val@),
            r is None <==> w.val@.len() < OCTET_LEN,
            r matches Some(p) ==> p.wf(),
    {
        if w.val.len() < OCTET_LEN {
            return None;
        }
        let x = FP2::new(read_u64_be(&w.val, 1), read_u64_be(&w.val, 9));
        let y = FP2::new(read_u64_be(&w.val, 17), read_u64_be(&w.val, 25));
        let z = FP2::new(read_u64_be(&w.val, 33), read_u64_be(&w.val, 41));
        Some(ECP2 { inf: w.val[0] != 0, x, y, z })
    }

    /// The text form of the point.
    pub fn to_hex(&self) -> (r: String)
        ensures
            r@ == hex_text(*self),
    {
        let mut f: Vec<u64> = Vec::new();
        f.push(if self.inf { 1u64 } else { 0u64 });
        f.push(self.x.a);
        f.push(self.x.b);
        f.push(self.y.a);
        f.push(self.y.b);
        f.push(self.z.a);
        f.push(self.z.b);
        assert(f@ =~= fields_of(*self));
        let mut out = String::new();
        push_hex(&mut out, f[0]);
        assert(f@.subrange(0, 1).len() == 1);
        assert(out@ =~= join(f@.subrange(0, 1)));
        let mut i: usize = 1;
        while i < 7
            invariant
                1 <= i <= 7,
                f@ == fields_of(*self),
                out@ == join(f@.subrange(0, i as int)),
            decreases 7 - i,
        {
            out.append(" ");
            push_hex(&mut out, f[i]);
            proof {
                reveal_strlit(" ");
                let g = f@.subrange(0, i + 1);
                assert(g.drop_last() =~= f@.subrange(0, i as int));
                assert(out@ =~= join(g));
            }
            i = i + 1;
        }
        assert(f@.subrange(0, 7) =~= f@);
        out
    }

    /// Reads a point from the next seven tokens of `iter`. When a token is
    /// missing or is no base-16 integer of 64 bits, the result is the identity.
    pub fn from_hex_iter(iter: &mut Tokens) -> (r: ECP2)
        requires
            old(iter).wf(),
        ensures
            r == decode_hex(old(iter).chars@, old(iter).pos as int),
            r.wf(),
            final(iter).chars@ == old(iter).chars@,
            final(iter).wf(),
            hex_point_end(old(iter).chars@, old(iter).pos as int) matches Some(e)
                ==> final(iter).pos == e,
            old(iter).pos <= final(iter).pos,
    {
        let (a, b) = match iter.next_range() {
            None => {
                return infinity();
            },
            Some(r) => r,
        };
        let inf = match parse_flag_range(&iter.chars, a, b) {
            None => {
                return infinity();
            },
            Some(f) => f,
        };
        match iter.read_hex_fields(6) {
            None => infinity(),
            Some(v) => {
                let x = FP2::new(v[0], v[1]);
                let y = FP2::new(v[2], v[3]);
                let z = FP2::new(v[4], v[5]);
                ECP2 { inf, x, y, z }
            },
        }
    }

    /// Reads a point from its text form; see `from_hex_iter`.
    pub fn from_hex(val: String) -> (r: ECP2)
        ensures
            r == decode_hex(val@, 0),
            r.wf(),
    {
        let mut iter = Tokens::new(val.as_str());
        ECP2::from_hex_iter(&mut iter)
    }

    /// Makes `p` the group identity.
    pub fn inf(p: &mut ECP2)
        ensures
            *final(p) == inf_point(),
            final(p).wf(),
    {
        *p = infinity();
    }

    /// Whether the point lies on the curve.
    pub fn is_on_curve(&self) -> (r: bool)
        requires
            self.wf(),
        ensures
            r == on_curve(*self),
    {
        if self.inf {
            return true;
        }
        let b = FP2::new(4, 26);
        let zz = self.z.mul(&self.z);
        let z6 = zz.mul(&zz.mul(&zz));
        let lhs = self.y.mul(&self.y);
        let rhs = self.x.mul(&self.x.mul(&self.x)).add(&b.mul(&z6));
        lhs == rhs
    }

    /// The finite point with Jacobian coordinates `(x, y, z)`.
    pub fn new_fp2s(x: FP2, y: FP2, z: FP2) -> (r: ECP2)
        ensures
            r == (ECP2 { inf: false, x, y, z }),
    {
        ECP2 { inf: false, x: x, y: y, z: z }
    }
}

} // verus!
