use zkp_chaum_pedersen::{AuthError, AuthImpl, BigNum, ZKP};

fn n(v: u32) -> BigNum {
    BigNum::from_u32(v)
}

fn toy() -> ZKP {
    ZKP { p: n(23), q: n(11), g: n(4), h: n(9) }
}

fn bytes(v: u32) -> Vec<u8> {
    n(v).to_bytes_be()
}

/// Registers `user` with the secret `x` in the toy group.
fn register(auth: &mut AuthImpl, user: &str, x: u32) {
    let zkp = toy();
    let y1 = ZKP::exponentiate(&zkp.g, &n(x), &zkp.p).to_bytes_be();
    let y2 = ZKP::exponentiate(&zkp.h, &n(x), &zkp.p).to_bytes_be();
    auth.register(user.to_string(), &y1, &y2);
}

#[test]
fn toy_group_end_to_end() {
    let mut auth = AuthImpl::with_group(toy());
    register(&mut auth, "alice", 6);
    // x = 6, k = 7, c = 4: r1 = 8, r2 = 4, s = 5
    let r = auth.create_authentication_challenge_with(&"alice".to_string(), &bytes(8), &bytes(4), &n(4), "auth1".to_string());
    let (id, c) = r.unwrap();
    assert_eq!(id, "auth1");
    assert_eq!(BigNum::from_bytes_be(&c), n(4));
    let token = auth.verify_authentication(&id, &bytes(5)).unwrap();
    assert_eq!(token.chars().count(), 12);
    assert!(token.chars().all(|ch| ch.is_ascii_alphanumeric()));
}

#[test]
fn wrong_response_is_denied() {
    let mut auth = AuthImpl::with_group(toy());
    register(&mut auth, "alice", 6);
    auth.create_authentication_challenge_with(&"alice".to_string(), &bytes(8), &bytes(4), &n(4), "auth1".to_string()).unwrap();
    // the response for the wrong secret 7
    let s_fake = toy().solve(&n(7), &n(4), &n(7));
    let r = auth.verify_authentication(&"auth1".to_string(), &s_fake.to_bytes_be());
    assert_eq!(r, Err(AuthError::PermissionDenied("auth1".to_string())));
    // the challenge is gone
    let again = auth.verify_authentication(&"auth1".to_string(), &bytes(5));
    assert_eq!(again, Err(AuthError::AuthIdNotFound("auth1".to_string())));
}

#[test]
fn unknown_user_is_not_found() {
    let mut auth = AuthImpl::with_group(toy());
    register(&mut auth, "alice", 6);
    let r = auth.create_authentication_challenge(&"bob".to_string(), &bytes(8), &bytes(4));
    assert_eq!(r, Err(AuthError::UserNotFound("bob".to_string())));
    let r = auth.create_authentication_challenge_with(&"bob".to_string(), &bytes(8), &bytes(4), &n(4), "x".to_string());
    assert_eq!(r, Err(AuthError::UserNotFound("bob".to_string())));
}

#[test]
fn unknown_auth_id_is_not_found() {
    let mut auth = AuthImpl::with_group(toy());
    register(&mut auth, "alice", 6);
    let r = auth.verify_authentication(&"nope".to_string(), &bytes(5));
    assert_eq!(r, Err(AuthError::AuthIdNotFound("nope".to_string())));
}

#[test]
fn answered_challenge_cannot_be_replayed() {
    let mut auth = AuthImpl::with_group(toy());
    register(&mut auth, "alice", 6);
    auth.create_authentication_challenge_with(&"alice".to_string(), &bytes(8), &bytes(4), &n(4), "auth1".to_string()).unwrap();
    assert!(auth.verify_authentication(&"auth1".to_string(), &bytes(5)).is_ok());
    let second = auth.verify_authentication(&"auth1".to_string(), &bytes(5));
    assert_eq!(second, Err(AuthError::AuthIdNotFound("auth1".to_string())));
}

#[test]
fn reregistration_replaces_credential() {
    let mut auth = AuthImpl::with_group(toy());
    register(&mut auth, "alice", 6);
    register(&mut auth, "alice", 3);
    let zkp = toy();
    let k = n(7);
    let r1 = ZKP::exponentiate(&zkp.g, &k, &zkp.p).to_bytes_be();
    let r2 = ZKP::exponentiate(&zkp.h, &k, &zkp.p).to_bytes_be();
    auth.create_authentication_challenge_with(&"alice".to_string(), &r1, &r2, &n(4), "a".to_string()).unwrap();
    auth.create_authentication_challenge_with(&"alice".to_string(), &r1, &r2, &n(4), "b".to_string()).unwrap();
    // the first secret no longer passes
    let old_s = zkp.solve(&k, &n(4), &n(6));
    assert_eq!(auth.verify_authentication(&"a".to_string(), &old_s.to_bytes_be()), Err(AuthError::PermissionDenied("a".to_string())));
    // the second does
    let new_s = zkp.solve(&k, &n(4), &n(3));
    assert!(auth.verify_authentication(&"b".to_string(), &new_s.to_bytes_be()).is_ok());
}

#[test]
fn challenges_of_two_users_stay_apart() {
    let mut auth = AuthImpl::with_group(toy());
    register(&mut auth, "alice", 6);
    register(&mut auth, "bob", 2);
    let zkp = toy();
    let (ka, kb) = (n(7), n(3));
    let ra1 = ZKP::exponentiate(&zkp.g, &ka, &zkp.p).to_bytes_be();
    let ra2 = ZKP::exponentiate(&zkp.h, &ka, &zkp.p).to_bytes_be();
    let rb1 = ZKP::exponentiate(&zkp.g, &kb, &zkp.p).to_bytes_be();
    let rb2 = ZKP::exponentiate(&zkp.h, &kb, &zkp.p).to_bytes_be();
    let (ida, ca) = auth.create_authentication_challenge(&"alice".to_string(), &ra1, &ra2).unwrap();
    let (idb, cb) = auth.create_authentication_challenge(&"bob".to_string(), &rb1, &rb2).unwrap();
    assert_ne!(ida, idb);
    let ca = BigNum::from_bytes_be(&ca);
    let cb = BigNum::from_bytes_be(&cb);
    assert!(n(11).ge(&ca) && !ca.equals(&n(11)));
    let sb = zkp.solve(&kb, &cb, &n(2));
    let sa = zkp.solve(&ka, &ca, &n(6));
    assert!(auth.verify_authentication(&idb, &sb.to_bytes_be()).is_ok());
    assert!(auth.verify_authentication(&ida, &sa.to_bytes_be()).is_ok());
}

#[test]
fn open_id_is_not_reused() {
    let mut auth = AuthImpl::with_group(toy());
    register(&mut auth, "alice", 6);
    auth.create_authentication_challenge_with(&"alice".to_string(), &bytes(8), &bytes(4), &n(4), "same".to_string()).unwrap();
    let r = auth.create_authentication_challenge_with(&"alice".to_string(), &bytes(1), &bytes(1), &n(1), "same".to_string());
    assert_eq!(r, Err(AuthError::AuthIdInUse("same".to_string())));
    // the first challenge is untouched
    assert!(auth.verify_authentication(&"same".to_string(), &bytes(5)).is_ok());
}

#[test]
fn standard_group_round() {
    let mut auth = AuthImpl::default();
    let zkp = ZKP::standard();
    let x = ZKP::generate_random_number_below(&zkp.q);
    let y1 = ZKP::exponentiate(&zkp.g, &x, &zkp.p).to_bytes_be();
    let y2 = ZKP::exponentiate(&zkp.h, &x, &zkp.p).to_bytes_be();
    auth.register("carol".to_string(), &y1, &y2);
    let k = ZKP::generate_random_number_below(&zkp.q);
    let r1 = ZKP::exponentiate(&zkp.g, &k, &zkp.p).to_bytes_be();
    let r2 = ZKP::exponentiate(&zkp.h, &k, &zkp.p).to_bytes_be();
    let (id, c) = auth.create_authentication_challenge(&"carol".to_string(), &r1, &r2).unwrap();
    let s = zkp.solve(&k, &BigNum::from_bytes_be(&c), &x);
    assert!(auth.verify_authentication(&id, &s.to_bytes_be()).is_ok());
}
