use g2_curve::{Octet, Tokens, BIG, ECP2, FP2};

fn pt(xa: u64, xb: u64, ya: u64, yb: u64, za: u64, zb: u64) -> ECP2 {
    ECP2::new_fp2s(FP2::new(xa, xb), FP2::new(ya, yb), FP2::new(za, zb))
}

fn identity() -> ECP2 {
    let mut p = pt(1, 2, 3, 4, 5, 6);
    ECP2::inf(&mut p);
    p
}

// The affine point (1 + 2i, 3 + 4i) of y^2 = x^3 + (4 + 26i).
fn base() -> ECP2 {
    let mut p = identity();
    ECP2::set(&mut p, &FP2::new(1, 2), &FP2::new(3, 4));
    p
}

// Twice the base point, in affine form.
fn base_twice_affine() -> ECP2 {
    let mut p = identity();
    ECP2::set(
        &mut p,
        &FP2::new(125413041, 3497821359),
        &FP2::new(345624600, 2387589502),
    );
    p
}

#[test]
fn test_ecp2_hex_io() {
    let m = ECP2::from_hex(String::from(
        "0 \
         1 0 0 0 0 0 0 0 0 0 \
         2 0 0 0 0 0 0 0 0 0 \
         3 0 0 0 0 0 0 0 0 0",
    ));
    let s = m.to_hex();
    let r = ECP2::from_hex(s.clone());
    println!("ecp2_hex_io=s:{},m:{:?},r:{:?}", s, m, r);
    assert_eq!(m, r);
}

#[test]
fn hex_source_text_decodes_first_seven_tokens() {
    let m = ECP2::from_hex(String::from(
        "0 1 0 0 0 0 0 0 0 0 2 0 0 0 0 0 0 0 0 3 0 0 0 0 0 0 0",
    ));
    assert!(!m.inf);
    assert_eq!(m.x, FP2::new(1, 0));
    assert_eq!(m.y, FP2::new(0, 0));
    assert_eq!(m.z, FP2::new(0, 0));
    let again = ECP2::from_hex(m.to_hex());
    assert_eq!(again, m);
}

#[test]
fn identity_hex_form() {
    let p = identity();
    let s = p.to_hex();
    assert_eq!(s, "1 0 0 0 0 0 0");
    assert_eq!(s.split_whitespace().count(), 7);
    assert_eq!(ECP2::from_hex(s), p);
}

#[test]
fn hex_form_of_finite_point() {
    let p = pt(255, 16, 0, 4294967290, 1, 10);
    assert_eq!(p.to_hex(), "0 ff 10 0 fffffffa 1 a");
    assert_eq!(ECP2::from_hex(p.to_hex()), p);
}

#[test]
fn hex_round_trip_of_sum() {
    let mut p = base();
    ECP2::add(&mut p, &base_twice_affine());
    assert_eq!(ECP2::from_hex(p.to_hex()), p);
}

#[test]
fn hex_decode_reads_upper_case_and_reduces() {
    let p = ECP2::from_hex(String::from("0 FF 0 0 FFFFFFFB 0 1"));
    assert_eq!(p, pt(255, 0, 0, 0, 0, 1));
    assert_eq!(p.y.b, 0);
}

#[test]
fn hex_decode_of_short_or_bad_text_is_identity() {
    assert_eq!(ECP2::from_hex(String::new()), identity());
    assert_eq!(ECP2::from_hex(String::from("   ")), identity());
    assert_eq!(ECP2::from_hex(String::from("0 1 2 3 4 5")), identity());
    assert_eq!(ECP2::from_hex(String::from("0 1 2 3 4 5 xyz")), identity());
    assert_eq!(
        ECP2::from_hex(String::from("0 1 2 3 4 5 10000000000000000")),
        identity()
    );
}

#[test]
fn hex_decode_of_nonzero_flag_keeps_coordinates() {
    let p = ECP2::from_hex(String::from("2 1 2 3 4 5 6"));
    assert!(p.inf);
    assert_eq!((p.x, p.y, p.z), (FP2::new(1, 2), FP2::new(3, 4), FP2::new(5, 6)));
}

#[test]
fn identity_with_coordinates_round_trips() {
    let mut p = pt(5, 0, 1, 2, 3, 4);
    p.inf = true;
    assert_eq!(ECP2::from_hex(p.to_hex()), p);
    let mut w = Octet::new();
    ECP2::toOctet(&mut w, &p);
    assert_eq!(ECP2::fromOctet(&w), Some(p));
}

#[test]
fn hex_decode_splits_on_unicode_whitespace() {
    let plain = ECP2::from_hex(String::from("0 1 2 3 4 5 6"));
    let spaced = ECP2::from_hex(String::from("\u{a0}0\u{3000}1\u{2028}2\u{85}3\t4\u{200a}5 6"));
    assert_eq!(plain, pt(1, 2, 3, 4, 5, 6));
    assert_eq!(spaced, plain);
}

#[test]
fn hex_tokens_advance() {
    let text = "0 1 2 3 4 5 6\n1 0 0 0 0 0 0 extra";
    let mut it = Tokens::new(text);
    let a = ECP2::from_hex_iter(&mut it);
    let b = ECP2::from_hex_iter(&mut it);
    assert_eq!(a, pt(1, 2, 3, 4, 5, 6));
    assert_eq!(b, identity());
    assert_eq!(it.next_range(), Some((28, 33)));
    assert_eq!(it.next_range(), None);
}

#[test]
fn octet_round_trip() {
    for p in [base(), identity(), pt(4294967290, 1, 2, 3, 0, 77)] {
        let mut w = Octet::new();
        ECP2::toOctet(&mut w, &p);
        assert_eq!(w.len(), 49);
        assert_eq!(ECP2::fromOctet(&w), Some(p));
    }
}

#[test]
fn octet_layout() {
    let p = pt(0x01020304, 2, 3, 4, 5, 6);
    let mut w = Octet::new();
    ECP2::toOctet(&mut w, &p);
    assert_eq!(w.val[0], 0);
    assert_eq!(&w.val[1..9], &[0, 0, 0, 0, 1, 2, 3, 4]);
    assert_eq!(w.val[48], 6);
    let mut v = Octet::new();
    ECP2::toOctet(&mut v, &identity());
    assert_eq!(v.val[0], 1);
    assert!(v.val[1..].iter().all(|b| *b == 0));
}

#[test]
fn octet_short_buffer_fails() {
    assert_eq!(ECP2::fromOctet(&Octet::new()), None);
    assert_eq!(ECP2::fromOctet(&Octet::from_bytes(vec![0u8; 48])), None);
    assert_eq!(
        ECP2::fromOctet(&Octet::from_bytes(vec![0u8; 49])),
        Some(pt(0, 0, 0, 0, 0, 0))
    );
}

#[test]
fn octet_decode_reduces_and_reads_flag() {
    let mut bytes = vec![0u8; 50];
    for b in bytes[1..9].iter_mut() {
        *b = 0xff;
    }
    let p = ECP2::fromOctet(&Octet::from_bytes(bytes.clone())).unwrap();
    assert_eq!(p.x.a, u64::MAX % 4294967291);
    bytes[0] = 7;
    let q = ECP2::fromOctet(&Octet::from_bytes(bytes)).unwrap();
    assert!(q.inf);
    assert_eq!(q.x, p.x);
}

#[test]
fn field_product() {
    let r = FP2::new(2, 3).mul(&FP2::new(4, 5));
    assert_eq!(r, FP2::new(4294967284, 22));
    assert_eq!(FP2::new(4294967291, 4294967292), FP2::new(0, 1));
    assert_eq!(FP2::new(3, 0).neg(), FP2::new(4294967288, 0));
}

#[test]
fn add_identity_laws() {
    for p in [base(), identity(), pt(9, 8, 7, 6, 5, 4)] {
        let mut a = p;
        ECP2::add(&mut a, &identity());
        assert_eq!(a, p);
        let mut b = identity();
        ECP2::add(&mut b, &p);
        assert_eq!(b, p);
    }
}

#[test]
fn add_inverse_is_identity() {
    let mut p = base();
    ECP2::sub(&mut p, &base());
    assert_eq!(p, identity());
    let mut q = pt(9, 8, 7, 6, 5, 4);
    let q0 = q;
    ECP2::sub(&mut q, &q0);
    assert_eq!(q, identity());
}

#[test]
fn sub_identity_cases() {
    let mut p = base();
    ECP2::sub(&mut p, &identity());
    assert_eq!(p, base());
    let mut q = identity();
    ECP2::sub(&mut q, &base());
    assert_eq!(q, pt(1, 2, 4294967288, 4294967287, 1, 0));
}

#[test]
fn add_distinct_points_exact() {
    let mut p = base();
    ECP2::add(&mut p, &base_twice_affine());
    assert_eq!(
        p,
        pt(3306361423, 364418124, 4236515760, 908954425, 125413040, 3497821357)
    );
    let mut q = base_twice_affine();
    ECP2::add(&mut q, &base());
    assert_eq!(q, pt(3306361423, 364418124, 58451531, 3386012866, 4169554251, 797145934));
    assert_eq!(p.inf, q.inf);
    assert_eq!(q, ECP2::new_fp2s(p.x, p.y.neg(), p.z.neg()));
}

#[test]
fn add_equal_points_doubles() {
    let mut p = base();
    ECP2::add(&mut p, &base());
    assert_eq!(p, pt(377, 4294966995, 5557, 4294959791, 6, 8));
}

#[test]
fn scalar_small_multiples() {
    let p = base();
    let mut z = p;
    ECP2::mul(&mut z, &BIG::new_int(0));
    assert_eq!(z, identity());
    let mut one = p;
    ECP2::mul(&mut one, &BIG::new_int(1));
    assert_eq!(one, p);
    let mut two = p;
    ECP2::mul(&mut two, &BIG::new_int(2));
    let mut pp = p;
    ECP2::add(&mut pp, &p);
    assert_eq!(two, pp);
    let mut three = p;
    ECP2::mul(&mut three, &BIG::new_int(3));
    let mut ppp = p;
    ECP2::add(&mut ppp, &pp);
    assert_eq!(three, ppp);
}

#[test]
fn scalar_multiple_limbs() {
    let p = base();
    let mut big = p;
    ECP2::mul(&mut big, &BIG::from_limbs(vec![0, 1]));
    let mut a = p;
    for _ in 0..64 {
        let a0 = a;
        ECP2::add(&mut a, &a0);
    }
    assert_eq!(big, a);
    let mut zero = p;
    ECP2::mul(&mut zero, &BIG::from_limbs(vec![0, 0, 0]));
    assert_eq!(zero, identity());
    let mut empty = p;
    ECP2::mul(&mut empty, &BIG::from_limbs(Vec::new()));
    assert_eq!(empty, identity());
}

#[test]
fn scalar_multiple_of_identity() {
    let mut p = identity();
    ECP2::mul(&mut p, &BIG::from_limbs(vec![12345, 678]));
    assert_eq!(p, identity());
}

#[test]
fn hex_decode_accepts_largest_value() {
    let p = ECP2::from_hex(String::from("0 ffffffffffffffff 0 0 0 0 1"));
    assert_eq!(p, pt(u64::MAX % 4294967291, 0, 0, 0, 0, 1));
}

#[test]
fn add_explicit_inverse_both_orders() {
    let p = base();
    let neg = pt(1, 2, 4294967288, 4294967287, 1, 0);
    let mut a = p;
    ECP2::add(&mut a, &neg);
    assert_eq!(a, identity());
    let mut b = neg;
    ECP2::add(&mut b, &p);
    assert_eq!(b, identity());
}

#[test]
fn add_commutes_with_identity() {
    let p = pt(9, 8, 7, 6, 5, 4);
    let mut a = p;
    ECP2::add(&mut a, &identity());
    let mut b = identity();
    ECP2::add(&mut b, &p);
    assert_eq!(a, b);
}

#[test]
fn group_operations_stay_on_curve() {
    let p = base();
    assert!(p.is_on_curve());
    assert!(base_twice_affine().is_on_curve());
    assert!(!pt(1, 2, 3, 5, 1, 0).is_on_curve());
    assert!(identity().is_on_curve());
    let mut d = p;
    ECP2::add(&mut d, &p);
    assert!(d.is_on_curve());
    let mut s = d;
    ECP2::add(&mut s, &p);
    assert!(s.is_on_curve());
    let mut t = s;
    ECP2::sub(&mut t, &d);
    assert!(t.is_on_curve());
    let mut m = p;
    ECP2::mul(&mut m, &BIG::from_limbs(vec![0xdead_beef_1234_5678, 0x42]));
    assert!(m.is_on_curve());
    let mut dd = d;
    ECP2::add(&mut dd, &d);
    assert!(dd.is_on_curve());
}

#[test]
fn hex_flag_token_may_carry_a_sign() {
    assert_eq!(ECP2::from_hex(String::from("+0 1 2 3 4 5 6")), pt(1, 2, 3, 4, 5, 6));
    let neg = ECP2::from_hex(String::from("-1 1 2 3 4 5 6"));
    assert!(neg.inf);
    assert_eq!((neg.x, neg.y, neg.z), (FP2::new(1, 2), FP2::new(3, 4), FP2::new(5, 6)));
    assert_eq!(ECP2::from_hex(String::from("-0 1 2 3 4 5 6")), pt(1, 2, 3, 4, 5, 6));
    assert!(ECP2::from_hex(String::from("-80000000 1 2 3 4 5 6")).inf);
    assert_eq!(ECP2::from_hex(String::from("7fffffff 1 2 3 4 5 6")).x, FP2::new(1, 2));
}

#[test]
fn hex_flag_token_out_of_range_or_bare_sign_gives_default() {
    assert_eq!(ECP2::from_hex(String::from("80000000 1 2 3 4 5 6")), identity());
    assert_eq!(ECP2::from_hex(String::from("+ 1 2 3 4 5 6")), identity());
    assert_eq!(ECP2::from_hex(String::from("--1 1 2 3 4 5 6")), identity());
}

#[test]
fn hex_coordinate_tokens_take_plus_sign_only() {
    assert_eq!(ECP2::from_hex(String::from("0 +1 2 3 4 5 +6")), pt(1, 2, 3, 4, 5, 6));
    assert_eq!(ECP2::from_hex(String::from("0 -1 2 3 4 5 6")), identity());
    assert_eq!(ECP2::from_hex(String::from("0 1 2 3 4 5 +")), identity());
}
