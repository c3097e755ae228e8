use waf::cookie_manager::{
    generate_cookie, get_active_user_count, is_valid_format, store_cookie, token_from_seed,
    validate_cookie, CookieStorage, EXPIRATION_SECS,
};

fn sample_token(last: char) -> String {
    let mut token: String = "0123456789abcdef".repeat(4);
    token.pop();
    token.push(last);
    token
}

#[test]
fn format_accepts_sixty_four_hex_digits() {
    assert!(is_valid_format(&"a".repeat(64)));
    assert!(is_valid_format(&"0123456789abcdefABCDEF0123456789abcdefABCDEF0123456789abcdefABCD"));
    assert!(is_valid_format(&sample_token('7')));
}

#[test]
fn format_rejects_wrong_length() {
    assert!(!is_valid_format(""));
    assert!(!is_valid_format(&"a".repeat(63)));
    assert!(!is_valid_format(&"a".repeat(65)));
}

#[test]
fn format_rejects_other_characters() {
    assert!(!is_valid_format(&sample_token('g')));
    assert!(!is_valid_format(&sample_token(' ')));
    assert!(!is_valid_format(&"é".repeat(32)));
    assert!(!is_valid_format(&"é".repeat(64)));
}

#[test]
fn generated_tokens_are_well_formed() {
    let mut round: u32 = 0;
    while round < 50 {
        let token: String = generate_cookie();
        assert_eq!(token.len(), 64);
        assert!(is_valid_format(&token));
        assert!(token.chars().all(|c| c.is_ascii_digit() || ('a'..='f').contains(&c)));
        round += 1;
    }
}

#[test]
fn generated_tokens_differ() {
    let first: String = generate_cookie();
    let second: String = generate_cookie();
    assert_ne!(first, second);
}

#[test]
fn token_of_a_seed_is_its_sha256_in_hex() {
    assert_eq!(
        token_from_seed("abc"),
        "ba7816bf8f01cfea414140de5dae2223b00361a396177a9cb410ff61f20015ad"
    );
    assert_eq!(
        token_from_seed(""),
        "e3b0c44298fc1c149afbf4c8996fb92427ae41e4649b934ca495991b7852b855"
    );
}

#[test]
fn new_store_is_empty_with_ten_minutes_to_live() {
    let mut store: CookieStorage = CookieStorage::new();
    assert_eq!(store.expiration_time(), 600);
    assert_eq!(EXPIRATION_SECS, 600);
    assert_eq!(store.len(), 0);
    assert_eq!(get_active_user_count(&mut store, 0), 0);
}

#[test]
fn fresh_token_is_valid_at_once() {
    let mut store: CookieStorage = CookieStorage::new();
    let token: String = sample_token('1');
    store_cookie(&mut store, token.clone(), 1000);
    assert!(validate_cookie(&mut store, &token, 1000));
    assert!(validate_cookie(&mut store, &token, 1001));
    assert!(validate_cookie(&mut store, &token, 1599));
}

#[test]
fn token_expires_after_six_hundred_seconds() {
    let mut store: CookieStorage = CookieStorage::new();
    let token: String = sample_token('2');
    store_cookie(&mut store, token.clone(), 1000);
    assert!(validate_cookie(&mut store, &token, 1599));
    assert!(!validate_cookie(&mut store, &token, 1600));
    assert!(!validate_cookie(&mut store, &token, 1601));
    assert!(!validate_cookie(&mut store, &token, 100000));
}

#[test]
fn expired_token_does_not_come_back() {
    let mut store: CookieStorage = CookieStorage::new();
    let token: String = sample_token('3');
    store_cookie(&mut store, token.clone(), 1000);
    assert!(!validate_cookie(&mut store, &token, 1600));
    assert_eq!(store.len(), 0);
    assert!(!validate_cookie(&mut store, &token, 1000));
    assert!(!validate_cookie(&mut store, &token, 1200));
}

#[test]
fn validation_does_not_renew() {
    let mut store: CookieStorage = CookieStorage::new();
    let token: String = sample_token('4');
    store_cookie(&mut store, token.clone(), 0);
    assert!(validate_cookie(&mut store, &token, 590));
    assert!(!validate_cookie(&mut store, &token, 600));
}

#[test]
fn unknown_token_is_not_valid() {
    let mut store: CookieStorage = CookieStorage::new();
    store_cookie(&mut store, sample_token('5'), 10);
    assert!(!validate_cookie(&mut store, &sample_token('6'), 10));
    assert!(!store.is_valid(&sample_token('6'), 10));
    assert!(store.is_valid(&sample_token('5'), 10));
}

#[test]
fn clock_before_issue_counts_as_fresh() {
    let mut store: CookieStorage = CookieStorage::new();
    let token: String = sample_token('7');
    store_cookie(&mut store, token.clone(), 5000);
    assert!(validate_cookie(&mut store, &token, 4000));
    assert_eq!(store.len(), 1);
}

#[test]
fn issuing_twice_overwrites() {
    let mut store: CookieStorage = CookieStorage::new();
    let token: String = sample_token('8');
    store_cookie(&mut store, token.clone(), 0);
    store_cookie(&mut store, token.clone(), 500);
    assert_eq!(store.len(), 1);
    assert!(validate_cookie(&mut store, &token, 1000));
    assert!(!validate_cookie(&mut store, &token, 1100));
}

#[test]
fn active_count_sweeps_first() {
    let mut store: CookieStorage = CookieStorage::new();
    store_cookie(&mut store, sample_token('a'), 0);
    store_cookie(&mut store, sample_token('b'), 300);
    store_cookie(&mut store, sample_token('c'), 600);
    assert_eq!(store.len(), 3);
    assert_eq!(get_active_user_count(&mut store, 599), 3);
    assert_eq!(get_active_user_count(&mut store, 600), 2);
    assert_eq!(get_active_user_count(&mut store, 900), 1);
    assert_eq!(store.len(), 1);
    assert_eq!(get_active_user_count(&mut store, 1200), 0);
}

#[test]
fn sweep_keeps_the_live_records() {
    let mut store: CookieStorage = CookieStorage::new();
    store_cookie(&mut store, sample_token('a'), 0);
    store_cookie(&mut store, sample_token('b'), 700);
    store.cleanup_expired(800);
    assert_eq!(store.len(), 1);
    assert!(store.is_valid(&sample_token('b'), 800));
    assert!(!store.is_valid(&sample_token('a'), 800));
}
