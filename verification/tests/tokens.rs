use kebisafe::action::session::{
    check_token_content, generate_csrf_token, seal_csrf_token, verify_csrf_token, TokenError,
    KEY_LENGTH, NONCE_LENGTH, TOKEN_EXPIRY,
};
use kebisafe::text::split_whitespace;
use aes_gcm_siv::aead::generic_array::GenericArray;
use aes_gcm_siv::aead::{Aead, NewAead};
use aes_gcm_siv::Aes256GcmSiv;
use data_encoding::BASE64;
use rand::rngs::StdRng;
use rand::SeedableRng;

const KEY: [u8; 32] = [7; 32];
const OTHER_KEY: [u8; 32] = [8; 32];
const NONCE: [u8; 12] = [1, 2, 3, 4, 5, 6, 7, 8, 9, 10, 11, 12];

#[test]
fn token_limits_are_a_day_and_the_cipher_sizes() {
    assert_eq!(TOKEN_EXPIRY, 86_400);
    assert_eq!(KEY_LENGTH, 32);
    assert_eq!(NONCE_LENGTH, 12);
}

#[test]
fn sealed_token_holds_for_its_session() {
    let token = seal_csrf_token(&KEY, &NONCE, "session-1", 1_000).unwrap();
    assert_eq!(verify_csrf_token(&KEY, "session-1", &token, 1_000), Ok(()));
    assert_eq!(verify_csrf_token(&KEY, "session-1", &token, 1_000 + 86_400), Ok(()));
    assert_eq!(verify_csrf_token(&KEY, "session-1", &token, 500), Ok(()));
}

#[test]
fn sealed_token_begins_with_its_nonce() {
    let token = seal_csrf_token(&KEY, &NONCE, "session-1", 1_000).unwrap();
    assert!(token.starts_with("AQIDBAUGBwgJCgsM"), "{token}");
    assert_ne!(token, "session-1 1000");
    let again = seal_csrf_token(&KEY, &NONCE, "session-1", 1_000).unwrap();
    assert_eq!(token, again);
    let later = seal_csrf_token(&KEY, &NONCE, "session-1", 1_001).unwrap();
    assert_ne!(token, later);
}

#[test]
fn token_expires_after_a_day() {
    let token = seal_csrf_token(&KEY, &NONCE, "session-1", 1_000).unwrap();
    let verdict = verify_csrf_token(&KEY, "session-1", &token, 1_000 + 86_401);
    assert_eq!(verdict, Err(TokenError::Expired));
    assert_eq!(verify_csrf_token(&KEY, "session-1", &token, i64::MAX), Err(TokenError::Expired));
}

#[test]
fn token_of_another_session_does_not_hold() {
    let token = seal_csrf_token(&KEY, &NONCE, "session-1", 1_000).unwrap();
    assert_eq!(verify_csrf_token(&KEY, "session-2", &token, 1_000), Err(TokenError::Session));
    assert_eq!(verify_csrf_token(&KEY, "", &token, 1_000), Err(TokenError::Session));
}

#[test]
fn token_sealed_with_another_key_does_not_open() {
    let token = seal_csrf_token(&OTHER_KEY, &NONCE, "session-1", 1_000).unwrap();
    assert_eq!(verify_csrf_token(&KEY, "session-1", &token, 1_000), Err(TokenError::Decryption));
}

#[test]
fn changed_token_does_not_open() {
    let token = seal_csrf_token(&KEY, &NONCE, "session-1", 1_000).unwrap();
    let mut changed = token.into_bytes();
    changed[20] = if changed[20] == b'A' { b'B' } else { b'A' };
    let changed = String::from_utf8(changed).unwrap();
    assert_eq!(verify_csrf_token(&KEY, "session-1", &changed, 1_000), Err(TokenError::Decryption));
}

#[test]
fn token_that_is_no_base64_is_refused() {
    for token in ["not base64!", "AQI", "AQIDBA=", "*", "AQIDBAUGBwgJCgsM\n", "AQID AQID"] {
        let verdict = verify_csrf_token(&KEY, "session-1", token, 1_000);
        assert_eq!(verdict, Err(TokenError::Encoding), "{token:?}");
    }
}

#[test]
fn token_shorter_than_a_nonce_is_refused() {
    for token in ["", "AQID", "AQIDBA==", "AQIDBAUGBwgJCgs="] {
        let verdict = verify_csrf_token(&KEY, "session-1", token, 1_000);
        assert_eq!(verdict, Err(TokenError::Length), "{token:?}");
    }
    let verdict = verify_csrf_token(&KEY, "session-1", "AQIDBAUGBwgJCgsM", 1_000);
    assert_eq!(verdict, Err(TokenError::Decryption));
}

#[test]
fn key_of_another_length_is_refused() {
    assert_eq!(seal_csrf_token(&KEY[..31], &NONCE, "s", 1), Err(TokenError::Key));
    assert_eq!(seal_csrf_token(&[], &NONCE, "s", 1), Err(TokenError::Key));
    let token = seal_csrf_token(&KEY, &NONCE, "s", 1).unwrap();
    assert_eq!(verify_csrf_token(&KEY[..16], "s", &token, 1), Err(TokenError::Key));
    let mut rng = StdRng::seed_from_u64(1);
    assert_eq!(generate_csrf_token(&[0; 33], "s", 1, &mut rng), Err(TokenError::Key));
}

#[test]
fn token_for_a_session_with_a_space_has_too_many_parts() {
    let token = seal_csrf_token(&KEY, &NONCE, "two words", 1_000).unwrap();
    assert_eq!(verify_csrf_token(&KEY, "two words", &token, 1_000), Err(TokenError::Structure));
    let token = seal_csrf_token(&KEY, &NONCE, "", 1_000).unwrap();
    assert_eq!(verify_csrf_token(&KEY, "", &token, 1_000), Err(TokenError::Structure));
}

#[test]
fn generated_tokens_hold_and_differ() {
    let mut rng = StdRng::seed_from_u64(31);
    let first = generate_csrf_token(&KEY, "abc", 50, &mut rng).unwrap();
    let second = generate_csrf_token(&KEY, "abc", 50, &mut rng).unwrap();
    assert_ne!(first, second);
    assert_eq!(verify_csrf_token(&KEY, "abc", &first, 60), Ok(()));
    assert_eq!(verify_csrf_token(&KEY, "abc", &second, 60), Ok(()));
    let mut same_seed = StdRng::seed_from_u64(31);
    assert_eq!(generate_csrf_token(&KEY, "abc", 50, &mut same_seed).unwrap(), first);
}

#[test]
fn content_is_a_session_and_a_time() {
    assert_eq!(check_token_content("abc 100", "abc", 100), Ok(()));
    assert_eq!(check_token_content("  abc \t 100\n", "abc", 100), Ok(()));
    assert_eq!(check_token_content("abc\u{3000}100", "abc", 100), Ok(()));
    assert_eq!(check_token_content("abc", "abc", 100), Err(TokenError::Structure));
    assert_eq!(check_token_content("", "abc", 100), Err(TokenError::Structure));
    assert_eq!(check_token_content("abc 100 x", "abc", 100), Err(TokenError::Structure));
    assert_eq!(check_token_content("abd 100", "abc", 100), Err(TokenError::Session));
    assert_eq!(check_token_content("100 abc", "abc", 100), Err(TokenError::Session));
}

#[test]
fn content_is_judged_by_its_age() {
    assert_eq!(check_token_content("abc 100", "abc", 86_500), Ok(()));
    assert_eq!(check_token_content("abc 100", "abc", 86_501), Err(TokenError::Expired));
    assert_eq!(check_token_content("abc 100", "abc", -5), Ok(()));
    assert_eq!(check_token_content("abc -9223372036854775808", "abc", 0), Err(TokenError::Expired));
    assert_eq!(check_token_content("abc 9223372036854775807", "abc", i64::MIN), Ok(()));
}

#[test]
fn time_that_is_no_number_is_the_epoch() {
    assert_eq!(check_token_content("abc soon", "abc", 86_400), Ok(()));
    assert_eq!(check_token_content("abc soon", "abc", 86_401), Err(TokenError::Expired));
    assert_eq!(check_token_content("abc 99999999999999999999", "abc", 86_401), Err(TokenError::Expired));
}

#[test]
fn words_are_split_at_unicode_whitespace() {
    let texts = [
        "", " ", "a b", "a\u{a0}b", "a\u{85}b", "a\u{1680}b\u{2000}c\u{200a}d", "a\u{2028}b\u{2029}c",
        "a\u{202f}b\u{205f}c\u{3000}d", "a\u{200b}b", "a\u{b}b\u{c}c", "a\u{feff}b", "\u{180e}x y",
        "tab\there", "a\u{1c}b\u{1f}c",
    ];
    for text in texts {
        let expected: Vec<String> = text.split_whitespace().map(|w| w.to_string()).collect();
        let found: Vec<String> =
            split_whitespace(text).into_iter().map(|w| w.into_iter().collect()).collect();
        assert_eq!(found, expected, "{text:?}");
    }
}

#[test]
fn every_character_parts_words_as_the_standard_library_says() {
    for code in 0..=0x10ffffu32 {
        if let Some(symbol) = char::from_u32(code) {
            let text: String = ['a', symbol, 'b'].iter().collect();
            let parts = split_whitespace(&text).len() == 2;
            assert_eq!(parts, symbol.is_whitespace(), "U+{code:04X}");
        }
    }
}

fn token_holding(content: &[u8]) -> String {
    let cipher = Aes256GcmSiv::new(GenericArray::from_slice(&KEY));
    let sealed = cipher.encrypt(GenericArray::from_slice(&NONCE), content).unwrap();
    let mut bytes = NONCE.to_vec();
    bytes.extend(sealed);
    BASE64.encode(&bytes)
}

#[test]
fn token_is_the_nonce_and_the_sealed_session_and_time() {
    let token = seal_csrf_token(&KEY, &NONCE, "session-1", 1_000).unwrap();
    assert_eq!(token, token_holding(b"session-1 1000"));
    let token = seal_csrf_token(&KEY, &NONCE, "s", -5).unwrap();
    assert_eq!(token, token_holding(b"s -5"));
}

#[test]
fn token_that_holds_no_text_is_refused() {
    let token = token_holding(&[0xff, 0x20, 0x31]);
    assert_eq!(verify_csrf_token(&KEY, "session-1", &token, 1_000), Err(TokenError::Text));
}

#[test]
fn token_made_elsewhere_holds_if_it_has_the_form() {
    let token = token_holding("session-1\u{2003}1000\n".as_bytes());
    assert_eq!(verify_csrf_token(&KEY, "session-1", &token, 1_000), Ok(()));
    let token = token_holding(b"session-1");
    assert_eq!(verify_csrf_token(&KEY, "session-1", &token, 1_000), Err(TokenError::Structure));
    let token = token_holding(b"");
    assert_eq!(verify_csrf_token(&KEY, "session-1", &token, 1_000), Err(TokenError::Structure));
}
