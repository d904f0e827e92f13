use null_bbs::auth::{hash, verify};

#[test]
fn roundtrip() {
    let h = hash("ひみつ123").unwrap();
    assert!(verify("ひみつ123", &h));
    assert!(!verify("ひみつ124", &h));
    assert!(!verify("x", "!"));
}

#[test]
fn hashes_are_phc_strings_and_salted() {
    let a = hash("pw").unwrap();
    let b = hash("pw").unwrap();
    assert!(a.starts_with("$argon2id$"));
    assert_ne!(a, b);
    assert!(verify("pw", &b));
    assert!(!verify("pw", ""));
}
