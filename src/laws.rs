use vstd::prelude::*;
use crate::ecp2::{
    decode_point, encode_point, inf_point, ladder, spec_add, spec_double, spec_mul, spec_neg, ECP2,
    OCTET_LEN,
};
use crate::octet::{lemma_be_round_trip, u64_be};
use crate::hex::{hex_digits, is_hex_digit, lemma_hex_digits, lemma_join_round_trip, next_tok, parse_flag, parse_hex, read_fields};
use crate::ecp2::{decode_hex, fields_of, hex_text};
use crate::ecp2::{distinct_x, rescale_neg, f2_dbl, on_curve, spec_sub};
use crate::fp2::{
    f2_add, f2_mul, f2_neg, f2_sub, lemma_f2_add_neg, lemma_f2_lin_x, lemma_f2_lin_y,
    lemma_f2_mul_comm, lemma_f2_mul_sub, lemma_f2_neg_mul, lemma_f2_neg_neg, lemma_f2_sub_swap,
    FP2,
};

verus! {

/// The identity is neutral on both sides: `O + p == p` for every point `p`, and
/// `p + O == p` for every finite `p`; when `p` is an identity too, `p + O` is an
/// identity (that of `p + O` or `O + p` whose coordinates are kept is the left
/// operand's or the right one's; only one order can keep both).
pub proof fn lemma_add_identity(o: ECP2, p: ECP2)
    requires
        o.inf,
    ensures
        spec_add(o, p) == p,
        !p.inf ==> spec_add(p, o) == p,
        p.inf ==> spec_add(p, o).inf,
{
    reveal(spec_add);
}

/// A finite point plus its inverse is the identity.
pub proof fn lemma_add_inverse(p: ECP2)
    requires
        p.wf(),
        !p.inf,
    ensures
        spec_add(p, spec_neg(p)) == inf_point(),
{
    reveal(spec_add);
    let zz = f2_mul(p.z, p.z);
    let w = f2_mul(p.z, zz);
    lemma_f2_neg_mul(p.y, w);
    lemma_f2_add_neg(f2_mul(p.y, w));
}

/// Addition is commutative as to whether the sum is the identity, and exactly
/// commutative when one operand, and only one, is an identity. (Finite sums
/// agree only up to the choice of Jacobian representative.)
pub proof fn lemma_add_commutes_on_identity(p: ECP2, q: ECP2)
    requires
        p.wf(),
        q.wf(),
    ensures
        spec_add(p, q).inf == spec_add(q, p).inf,
        p.inf != q.inf ==> spec_add(p, q) == spec_add(q, p),
{
    reveal(spec_add);
    reveal(spec_double);
    if !p.inf && !q.inf {
        let s1 = f2_mul(p.y, f2_mul(q.z, f2_mul(q.z, q.z)));
        let s2 = f2_mul(q.y, f2_mul(p.z, f2_mul(p.z, p.z)));
        assert(f2_add(s1, s2) == f2_add(s2, s1));
        assert(spec_double(p).inf == false);
        assert(spec_double(q).inf == false);
    }
}

proof fn lemma_square_of_neg(h: FP2)
    requires
        h.wf(),
    ensures
        f2_mul(f2_neg(h), f2_neg(h)) == f2_mul(h, h),
{
    lemma_f2_neg_mul(h, f2_neg(h));
    lemma_f2_mul_comm(h, f2_neg(h));
    lemma_f2_neg_mul(h, h);
    lemma_f2_neg_neg(f2_mul(h, h));
}

/// Addition of finite points with distinct `x` commutes: `q + p` is `p + q`
/// with its Jacobian representative scaled by `-1`, the same affine point.
pub proof fn lemma_add_commutes(p: ECP2, q: ECP2)
    requires
        p.wf(),
        q.wf(),
        !p.inf,
        !q.inf,
        distinct_x(p, q),
    ensures
        spec_add(q, p) == rescale_neg(spec_add(p, q)),
{
    reveal(spec_add);
    let z1z1 = f2_mul(p.z, p.z);
    let z2z2 = f2_mul(q.z, q.z);
    let u1 = f2_mul(p.x, z2z2);
    let u2 = f2_mul(q.x, z1z1);
    let s1 = f2_mul(p.y, f2_mul(q.z, z2z2));
    let s2 = f2_mul(q.y, f2_mul(p.z, z1z1));
    let h = f2_sub(u2, u1);
    let r = f2_sub(s2, s1);
    let hh = f2_mul(h, h);
    let hhh = f2_mul(h, hh);
    let v = f2_mul(u1, hh);
    let rr = f2_mul(r, r);
    let x3 = f2_sub(f2_sub(rr, hhh), f2_dbl(v));
    let v2 = f2_mul(u2, hh);
    // Swapping the operands negates `H` and `R`, and keeps their squares.
    lemma_f2_sub_swap(u2, u1);
    lemma_f2_sub_swap(s2, s1);
    lemma_square_of_neg(h);
    lemma_square_of_neg(r);
    lemma_f2_neg_mul(h, hh);
    // `H^3 == U2*H^2 - U1*H^2`, which makes the two `X3` agree.
    lemma_f2_mul_sub(u2, u1, hh);
    lemma_f2_lin_x(rr, v2, v);
    assert(f2_sub(f2_sub(f2_mul(f2_neg(r), f2_neg(r)), f2_mul(f2_neg(h), hh)), f2_dbl(v2)) == x3);
    // The two `Y3` are opposite.
    let rb = f2_mul(v2, r);
    let rc = f2_mul(v, r);
    let rx = f2_mul(x3, r);
    let s1h = f2_mul(s1, hhh);
    let s2h = f2_mul(s2, hhh);
    lemma_f2_neg_mul(r, f2_sub(v2, x3));
    lemma_f2_mul_comm(s2, f2_neg(hhh));
    lemma_f2_neg_mul(hhh, s2);
    lemma_f2_mul_comm(hhh, s2);
    lemma_f2_mul_comm(r, f2_sub(v2, x3));
    lemma_f2_mul_sub(v2, x3, r);
    lemma_f2_mul_comm(r, f2_sub(v, x3));
    lemma_f2_mul_sub(v, x3, r);
    lemma_f2_mul_sub(v2, v, r);
    lemma_f2_mul_comm(hhh, r);
    lemma_f2_mul_sub(s2, s1, hhh);
    lemma_f2_lin_y(rb, rc, rx, s1h, s2h);
    // The two `Z3` are opposite.
    lemma_f2_mul_comm(q.z, p.z);
    lemma_f2_neg_mul(h, f2_mul(p.z, q.z));
}

/// `0 * p` is the identity, `1 * p == p` and `2 * p == p + p`.
pub proof fn lemma_mul_small(p: ECP2)
    requires
        p.wf(),
    ensures
        spec_mul(p, 0) == inf_point(),
        spec_mul(p, 1) == p,
        spec_mul(p, 2) == spec_add(p, p),
{
    reveal_with_fuel(ladder, 3);
    lemma_add_identity(inf_point(), p);
    lemma_add_identity(inf_point(), spec_add(p, p));
    assert(spec_add(inf_point(), inf_point()) == inf_point()) by {
        reveal(spec_add);
    }
}

proof fn lemma_ladder_identity(n: nat)
    ensures
        ladder(inf_point(), inf_point(), n) == inf_point(),
    decreases n,
{
    reveal(ladder);
    reveal(spec_add);
    if n > 0 {
        lemma_ladder_identity(n / 2);
    }
}

/// Any multiple of the identity is the identity.
pub proof fn lemma_mul_identity(n: nat)
    ensures
        spec_mul(inf_point(), n) == inf_point(),
{
    lemma_ladder_identity(n);
}

/// Decoding the binary encoding of a point gives the point back.
pub proof fn lemma_octet_round_trip(p: ECP2)
    requires
        p.wf(),
    ensures
        decode_point(encode_point(p)) == Some(p),
{
    let e = encode_point(p);
    assert(e.len() == OCTET_LEN);
    assert(e.subrange(1, 9) =~= u64_be(p.x.a));
    assert(e.subrange(9, 17) =~= u64_be(p.x.b));
    assert(e.subrange(17, 25) =~= u64_be(p.y.a));
    assert(e.subrange(25, 33) =~= u64_be(p.y.b));
    assert(e.subrange(33, 41) =~= u64_be(p.z.a));
    assert(e.subrange(41, 49) =~= u64_be(p.z.b));
    lemma_be_round_trip(p.x.a);
    lemma_be_round_trip(p.x.b);
    lemma_be_round_trip(p.y.a);
    lemma_be_round_trip(p.y.b);
    lemma_be_round_trip(p.z.a);
    lemma_be_round_trip(p.z.b);
}

/// Binary decoding fails exactly on buffers shorter than the encoding, and an
/// encoding, always of that length, never fails to decode.
pub proof fn lemma_octet_decode_fails_iff_short(b: Seq<u8>, p: ECP2)
    ensures
        decode_point(b) is None <==> b.len() < OCTET_LEN,
        encode_point(p).len() == OCTET_LEN,
        decode_point(encode_point(p)) is Some,
{
}

/// Decoding the text form of a point gives the point back.
pub proof fn lemma_hex_round_trip(p: ECP2)
    requires
        p.wf(),
    ensures
        decode_hex(hex_text(p), 0) == p,
{
    let vs = fields_of(p);
    let s = hex_text(p);
    lemma_join_round_trip(vs);
    let (a, b) = next_tok(s, 0)->0;
    let t = s.subrange(a, b);
    lemma_hex_digits(vs[0] as nat);
    assert(t == hex_digits(vs[0] as nat));
    assert(parse_hex(t) == Some(vs[0]));
    assert(t[0] != '+' && t[0] != '-') by {
        assert(is_hex_digit(t[0]));
    }
    assert(parse_flag(t) == Some(p.inf));
    let got = read_fields(s, b, 6)->0;
    let rest = got.0;
    assert(seq![vs[0]] + rest == vs);
    assert(rest =~= vs.drop_first());
}

/// Negation keeps a point on the curve: `(-Y)^2 == Y^2`.
pub proof fn lemma_neg_on_curve(p: ECP2)
    requires
        p.wf(),
        on_curve(p),
    ensures
        on_curve(spec_neg(p)),
{
    if !p.inf {
        lemma_square_of_neg(p.y);
    }
}

/// A sum with an identity operand, or of a finite point and its inverse, or a
/// difference with an identity operand, stays on the curve.
pub proof fn lemma_add_on_curve_special(p: ECP2, q: ECP2)
    requires
        p.wf(),
        q.wf(),
        on_curve(p),
        on_curve(q),
    ensures
        p.inf || q.inf ==> on_curve(spec_add(p, q)),
        !p.inf ==> on_curve(spec_add(p, spec_neg(p))),
        p.inf || q.inf ==> on_curve(spec_sub(p, q)),
{
    reveal(spec_add);
    lemma_neg_on_curve(q);
    if !p.inf {
        lemma_add_inverse(p);
    }
}

} // verus!
