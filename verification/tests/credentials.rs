use schnorr_login::credentials::{hash_to_int, register_user, StoredCredentials, UserCredentials};
use schnorr_login::natural::BigNat;
use schnorr_login::params::{generate_params, Params};

const SECRET_PASSWORD_DIGEST: [u8; 32] = [
    142, 103, 221, 19, 85, 113, 66, 57, 172, 222, 9, 139, 111, 28, 249, 6, 189, 228, 91, 230, 219,
    130, 109, 194, 202, 202, 117, 54, 224, 122, 232, 68,
];

fn curve_sized_params() -> Params {
    let mut modulus: Vec<u8> = vec![255; 32];
    modulus[0] = 127;
    modulus[31] = 237;
    Params::new(BigNat::from_bytes_be(&modulus), BigNat::from_u64(2)).unwrap()
}

#[test]
fn exponent_is_the_digest_read_big_endian() {
    let x = hash_to_int(b"secret_password");
    assert_eq!(x.to_bytes_be(), SECRET_PASSWORD_DIGEST.to_vec());
    assert_eq!(x, BigNat::from_bytes_be(&SECRET_PASSWORD_DIGEST));
}

#[test]
fn exponent_of_abc_is_the_known_digest() {
    let expected: Vec<u8> = vec![
        0xba, 0x78, 0x16, 0xbf, 0x8f, 0x01, 0xcf, 0xea, 0x41, 0x41, 0x40, 0xde, 0x5d, 0xae, 0x22,
        0x23, 0xb0, 0x03, 0x61, 0xa3, 0x96, 0x17, 0x7a, 0x9c, 0xb4, 0x10, 0xff, 0x61, 0xf2, 0x00,
        0x15, 0xad,
    ];
    assert_eq!(hash_to_int(b"abc").to_bytes_be(), expected);
}

#[test]
fn exponent_of_the_empty_password_is_the_known_digest() {
    let expected: Vec<u8> = vec![
        227, 176, 196, 66, 152, 252, 28, 20, 154, 251, 244, 200, 153, 111, 185, 36, 39, 174, 65,
        228, 100, 155, 147, 76, 164, 149, 153, 27, 120, 82, 184, 85,
    ];
    assert_eq!(hash_to_int(b"").to_bytes_be(), expected);
}

#[test]
fn derivation_gives_the_same_exponent_every_time() {
    let first = hash_to_int(b"secret_password");
    for _ in 0..20 {
        assert_eq!(hash_to_int(b"secret_password"), first);
    }
    assert_ne!(hash_to_int(b"wrong_password"), first);
}

#[test]
fn exponent_is_not_reduced() {
    let x = hash_to_int(b"secret_password");
    assert_eq!(x.to_u64(), None);
    assert!(generate_params().modulus().lt(&x));
}

#[test]
fn registration_stores_generator_to_the_exponent() {
    let params = generate_params();
    let user = UserCredentials {
        username: "alice".to_string(),
        password: b"secret_password".to_vec(),
    };
    let stored = register_user(&params, &user);
    assert_eq!(stored.username, "alice");
    assert_eq!(stored.y.to_u64(), Some(13));
}

#[test]
fn registration_of_another_password_stores_another_value() {
    let params = generate_params();
    let user = UserCredentials {
        username: "bob".to_string(),
        password: b"wrong_password".to_vec(),
    };
    let stored = register_user(&params, &user);
    assert_eq!(stored.username, "bob");
    assert_eq!(stored.y.to_u64(), Some(22));
}

#[test]
fn registration_twice_gives_the_same_record() {
    let params = generate_params();
    let user = UserCredentials {
        username: "alice".to_string(),
        password: b"secret_password".to_vec(),
    };
    let first = register_user(&params, &user);
    let second = register_user(&params, &user);
    assert_eq!(first.username, second.username);
    assert_eq!(first.y, second.y);
}

#[test]
fn record_from_a_small_exponent() {
    let params = generate_params();
    let seven = BigNat::from_u64(7);
    let stored = StoredCredentials::from_exponent(&params, "carol".to_string(), &seven);
    assert_eq!(stored.username, "carol");
    assert_eq!(stored.y.to_u64(), Some(17));
    let nought = BigNat::from_u64(0);
    let unit = StoredCredentials::from_exponent(&params, "dave".to_string(), &nought);
    assert_eq!(unit.y.to_u64(), Some(1));
    let order = BigNat::from_u64(22);
    let whole = StoredCredentials::from_exponent(&params, "erin".to_string(), &order);
    assert_eq!(whole.y.to_u64(), Some(1));
}

#[test]
fn stored_value_lies_strictly_between_zero_and_the_modulus() {
    let params = generate_params();
    let zero = BigNat::from_u64(0);
    for x in 0u64..60 {
        let exponent = BigNat::from_u64(x);
        let stored = StoredCredentials::from_exponent(&params, "u".to_string(), &exponent);
        assert!(zero.lt(&stored.y));
        assert!(stored.y.lt(params.modulus()));
    }
}

#[test]
fn registration_in_a_large_group() {
    let params = curve_sized_params();
    let user = UserCredentials {
        username: "alice".to_string(),
        password: b"secret_password".to_vec(),
    };
    let stored = register_user(&params, &user);
    let expected: Vec<u8> = vec![
        9, 157, 145, 104, 83, 223, 254, 178, 108, 166, 44, 245, 244, 247, 160, 52, 13, 82, 27, 95,
        211, 165, 68, 164, 109, 137, 225, 90, 52, 94, 249, 230,
    ];
    assert_eq!(stored.y.to_bytes_be(), expected);
}

#[test]
fn credentials_from_text_hold_the_utf8_bytes() {
    let user = UserCredentials::from_text("alice", "secret_password");
    assert_eq!(user.username, "alice");
    assert_eq!(user.password, b"secret_password".to_vec());
    let accented = UserCredentials::from_text("zo\u{eb}", "p\u{e4}ss");
    assert_eq!(accented.username, "zo\u{eb}");
    assert_eq!(accented.password, vec![b'p', 0xc3, 0xa4, b's', b's']);
    let empty = UserCredentials::from_text("", "");
    assert_eq!(empty.username, "");
    assert_eq!(empty.password, Vec::<u8>::new());
}

#[test]
fn credentials_from_text_register_like_credentials_from_bytes() {
    let params = generate_params();
    let user = UserCredentials::from_text("alice", "secret_password");
    let from_text = register_user(&params, &user);
    assert_eq!(from_text.username, "alice");
    assert_eq!(from_text.y.to_u64(), Some(13));
}

#[test]
fn stored_value_is_checked_against_the_group() {
    let params = generate_params();
    let record =
        |y: u64| StoredCredentials { username: "u".to_string(), y: BigNat::from_u64(y) };
    assert!(!record(0).is_element(&params));
    assert!(record(1).is_element(&params));
    assert!(record(13).is_element(&params));
    assert!(record(22).is_element(&params));
    assert!(!record(23).is_element(&params));
    assert!(!record(24).is_element(&params));
    let user = UserCredentials::from_text("alice", "secret_password");
    let registered = register_user(&params, &user);
    assert!(registered.is_element(&params));
}
