use zkp_chaum_pedersen::{BigNum, Exponentiation, ZKP};

fn n(v: u32) -> BigNum {
    BigNum::from_u32(v)
}

fn toy() -> ZKP {
    ZKP { p: n(23), q: n(11), g: n(4), h: n(9) }
}

#[test]
fn test_modulo_arithmetic() {
    let zkp = toy();

    // case 1: k >= c * x
    let k1 = n(7);
    let c1 = n(2);
    let x1 = n(3);
    let s1 = zkp.solve(&k1, &c1, &x1);
    println!("Case 1: k={:?}, c={:?}, x={:?}, s={:?}", k1, c1, x1, s1);

    // case 2: k < c * x
    let k2 = n(3);
    let c2 = n(2);
    let x2 = n(3);
    let s2 = zkp.solve(&k2, &c2, &x2);
    println!("Case 2: k={:?}, c={:?}, x={:?}, s={:?}", k2, c2, x2, s2);

    let manual_s2 = zkp.q.sub(&c2.mul(&x2).sub(&k2));
    println!("Manual calculation: q - (c*x - k) = {:?}", manual_s2);

    assert_eq!(s1, n(1));
    assert_eq!(s2, n(8));
    assert_eq!(s2, manual_s2);
}

#[test]
fn test_unified_formula() {
    let zkp = toy();

    let k1 = n(7);
    let c1 = n(2);
    let x1 = n(3);
    let s1_branching = zkp.solve(&k1, &c1, &x1);
    let s1_unified = zkp.solve_unified(&k1, &c1, &x1);
    println!("Case 1 - Branching: {:?}, Unified: {:?}", s1_branching, s1_unified);

    let k2 = n(3);
    let c2 = n(2);
    let x2 = n(3);
    let s2_branching = zkp.solve(&k2, &c2, &x2);
    let s2_unified = zkp.solve_unified(&k2, &c2, &x2);
    println!("Case 2 - Branching: {:?}, Unified: {:?}", s2_branching, s2_unified);

    assert_eq!(s1_branching, s1_unified);
    assert_eq!(s2_branching, s2_unified);
}

#[test]
fn test_trait_import_example() {
    let base = n(4);
    let modulus = n(23);
    let exponent = n(6);

    let exp_op = Exponentiation { base, modulus };
    println!("{}: {:?}", exp_op.name(), exp_op);

    let result = exp_op.compute(&exponent);
    println!("Result: {:?}", result);

    assert_eq!(result, n(2));
}

#[test]
fn test_toy_example_with_random_numbers() {
    let zkp = toy();

    let x = n(6);
    let k = ZKP::generate_random_number_below(&zkp.q);
    let c = ZKP::generate_random_number_below(&zkp.q);

    let y1 = ZKP::exponentiate(&zkp.g, &x, &zkp.p);
    let y2 = ZKP::exponentiate(&zkp.h, &x, &zkp.p);
    let r1 = ZKP::exponentiate(&zkp.g, &k, &zkp.p);
    let r2 = ZKP::exponentiate(&zkp.h, &k, &zkp.p);

    let s = zkp.solve(&k, &c, &x);

    let result = zkp.verify(&r1, &r2, &y1, &y2, &c, &s);
    assert!(result);
}

#[test]
fn test_trivial_invalid_numbers() {
    let (g, h, p, q) = ZKP::get_constants();
    let zkp = ZKP { p, q, g, h };

    let r1 = n(0);
    let r2 = n(0);
    let y1 = n(0);
    let y2 = n(0);
    let c = n(0);
    let s = n(0);

    let result = zkp.verify(&r1, &r2, &y1, &y2, &c, &s);
    println!("r1={:?}, r2={:?}, y1={:?}, y2={:?}, c={:?}, s={:?}, result={}", r1, r2, y1, y2, c, s, result);
    assert!(!result);
}

#[test]
fn test_zero_values_with_nonzero_challenge() {
    let zkp = toy();

    let r1 = n(0);
    let r2 = n(0);
    let y1 = n(0);
    let y2 = n(0);
    let c = n(4);
    let s = n(0);

    let g_s = zkp.g.modpow(&s, &zkp.p);
    let y1_c = y1.modpow(&c, &zkp.p);
    let h_s = zkp.h.modpow(&s, &zkp.p);
    let y2_c = y2.modpow(&c, &zkp.p);
    assert_eq!(g_s, n(1));
    assert_eq!(y1_c, n(0));

    let cond1_calc = g_s.mul(&y1_c).modpow(&n(1), &zkp.p);
    let cond2_calc = h_s.mul(&y2_c).modpow(&n(1), &zkp.p);
    let cond1 = r1 == cond1_calc;
    let cond2 = r2 == cond2_calc;
    println!("cond1: {}, cond2: {}", cond1, cond2);

    let result = zkp.verify(&r1, &r2, &y1, &y2, &c, &s);
    println!("Final verification result: {}", result);
    assert!(result);
}

#[test]
fn test_toy_example() {
    let zkp = toy();

    let x = n(6);
    let k = n(7);
    let c = n(4);

    let y1 = ZKP::exponentiate(&zkp.g, &x, &zkp.p);
    let y2 = ZKP::exponentiate(&zkp.h, &x, &zkp.p);
    assert_eq!(y1, n(2));
    assert_eq!(y2, n(3));

    let r1 = ZKP::exponentiate(&zkp.g, &k, &zkp.p);
    let r2 = ZKP::exponentiate(&zkp.h, &k, &zkp.p);
    assert_eq!(r1, n(8));
    assert_eq!(r2, n(4));

    let s = zkp.solve(&k, &c, &x);
    assert_eq!(s, n(5));

    let result = zkp.verify(&r1, &r2, &y1, &y2, &c, &s);
    assert!(result);

    let x_fake = n(7);
    let s_fake = zkp.solve(&k, &c, &x_fake);
    let result_fake = zkp.verify(&r1, &r2, &y1, &y2, &c, &s_fake);
    assert!(!result_fake);
}

#[test]
fn test_toy_example2() {
    let zkp = ZKP { p: n(47), q: n(23), g: n(16), h: n(17) };

    let x = n(300);
    let k = n(100);
    let c = n(200);

    let y1 = ZKP::exponentiate(&zkp.g, &x, &zkp.p);
    let y2 = ZKP::exponentiate(&zkp.h, &x, &zkp.p);
    let r1 = ZKP::exponentiate(&zkp.g, &k, &zkp.p);
    let r2 = ZKP::exponentiate(&zkp.h, &k, &zkp.p);

    let s = zkp.solve(&k, &c, &x);

    let result = zkp.verify(&r1, &r2, &y1, &y2, &c, &s);
    assert!(result);
}

#[test]
fn test_1024bit_constants() {
    let p = BigNum::from_bytes_be(&hex::decode("B10B8F96A080E01DDE92DE5EAE5D54EC52C99FBCFB06A3C69A6A9DCA52D23B616073E28675A23D189838EF1E2EE652C013ECB4AEA906112324975C3CD49B83BFACCBDD7D90C4BD7098488E9C219A73724EFFD6FAE5644738FAA31A4FF55BCCC0A151AF5F0DC8B4BD45BF37DF365C1A65E68CFDA76D4DA708DF1FB2BC2E4A4371").unwrap());
    let q = BigNum::from_bytes_be(&hex::decode("F518AA8781A8DF278ABA4E7D64B7CB9D49462353").unwrap());
    let g = BigNum::from_bytes_be(&hex::decode("A4D1CBD5C3FD34126765A442EFB99905F8104DD258AC507FD6406CFF14266D31266FEA1E5C41564B777E690F5504F213160217B4B01B886A5E91547F9E2749F4D7FBD7D3B9A92EE1909D0D2263F80A76A6A24C087A091F531DBF0A0169B6A28AD662A4D18E73AFA32D779D5918D08BC8858F4DCEF97C2A24855E6EEB22B3B2E5").unwrap());
    let h = g.modpow(&ZKP::generate_random_number_below(&q), &p);

    let zkp = ZKP { p: p.clone(), q: q.clone(), g: g.clone(), h: h.clone() };

    let x = ZKP::generate_random_number_below(&zkp.q);
    let k = ZKP::generate_random_number_below(&zkp.q);
    let c = ZKP::generate_random_number_below(&zkp.q);

    let y1 = ZKP::exponentiate(&zkp.g, &x, &zkp.p);
    let y2 = ZKP::exponentiate(&zkp.h, &x, &zkp.p);
    let r1 = ZKP::exponentiate(&zkp.g, &k, &zkp.p);
    let r2 = ZKP::exponentiate(&zkp.h, &k, &zkp.p);

    let s = zkp.solve(&k, &c, &x);

    let result = zkp.verify(&r1, &r2, &y1, &y2, &c, &s);
    assert!(result);
}

#[test]
fn test_verify_sample_data() {
    let zkp = toy();

    // successful case 1
    let x1 = n(6);
    let k1 = n(7);
    let c1 = n(4);
    let y1_1 = ZKP::exponentiate(&zkp.g, &x1, &zkp.p);
    let y2_1 = ZKP::exponentiate(&zkp.h, &x1, &zkp.p);
    let r1_1 = ZKP::exponentiate(&zkp.g, &k1, &zkp.p);
    let r2_1 = ZKP::exponentiate(&zkp.h, &k1, &zkp.p);
    let s1 = zkp.solve(&k1, &c1, &x1);
    assert!(zkp.verify(&r1_1, &r2_1, &y1_1, &y2_1, &c1, &s1));

    // successful case 2
    let x2 = n(3);
    let k2 = n(5);
    let c2 = n(2);
    let y1_2 = ZKP::exponentiate(&zkp.g, &x2, &zkp.p);
    let y2_2 = ZKP::exponentiate(&zkp.h, &x2, &zkp.p);
    let r1_2 = ZKP::exponentiate(&zkp.g, &k2, &zkp.p);
    let r2_2 = ZKP::exponentiate(&zkp.h, &k2, &zkp.p);
    let s2 = zkp.solve(&k2, &c2, &x2);
    assert!(zkp.verify(&r1_2, &r2_2, &y1_2, &y2_2, &c2, &s2));

    // failed case 1: wrong secret
    let x_fake = n(7);
    let s_fake = zkp.solve(&k1, &c1, &x_fake);
    assert!(!zkp.verify(&r1_1, &r2_1, &y1_1, &y2_1, &c1, &s_fake));

    // failed case 2: wrong r1
    let r1_wrong = n(1);
    assert!(!zkp.verify(&r1_wrong, &r2_1, &y1_1, &y2_1, &c1, &s1));

    // failed case 3: wrong r2
    let r2_wrong = n(1);
    assert!(!zkp.verify(&r1_1, &r2_wrong, &y1_1, &y2_1, &c1, &s1));

    // failed case 4: wrong c
    let c_wrong = n(1);
    assert!(!zkp.verify(&r1_1, &r2_1, &y1_1, &y2_1, &c_wrong, &s1));

    // failed case 5: wrong y1
    let y1_wrong = n(1);
    assert!(!zkp.verify(&r1_1, &r2_1, &y1_wrong, &y2_1, &c1, &s1));

    // failed case 6: wrong y2
    let y2_wrong = n(1);
    assert!(!zkp.verify(&r1_1, &r2_1, &y1_1, &y2_wrong, &c1, &s1));
}
