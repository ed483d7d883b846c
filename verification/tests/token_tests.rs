use tweetbook::token::{issue, verify_token, UserClaims, VerificationError};

const KEY: &str = "test-signing-key";

fn claims(exp: u64) -> UserClaims {
    UserClaims {
        username: "alice".to_string(),
        uid: "11111111-2222-3333-4444-555555555555".to_string(),
        suid: "aabbccddeeff00112233445566778899".to_string(),
        exp,
    }
}

#[test]
fn round_trip_before_expiry() {
    let c = claims(1_000_000);
    let token = issue(&c, KEY);
    let got = verify_token(&token, KEY, 999_999).expect("token should verify before expiry");
    assert_eq!(got.username, c.username);
    assert_eq!(got.uid, c.uid);
    assert_eq!(got.suid, c.suid);
    assert_eq!(got.exp, c.exp);
}

#[test]
fn expired_token_is_rejected() {
    let c = claims(1_000_000);
    let token = issue(&c, KEY);
    assert_eq!(verify_token(&token, KEY, 1_000_000).unwrap_err(), VerificationError::Expired);
    assert_eq!(verify_token(&token, KEY, 2_000_000).unwrap_err(), VerificationError::Expired);
}

#[test]
fn verification_window_is_half_open() {
    let c = claims(500);
    let token = issue(&c, KEY);
    assert!(verify_token(&token, KEY, 0).is_ok());
    assert!(verify_token(&token, KEY, 499).is_ok());
    assert!(verify_token(&token, KEY, 500).is_err());
}

#[test]
fn signature_bit_flip_is_rejected() {
    let c = claims(1_000_000);
    let token = issue(&c, KEY);
    let dot = token.rfind('.').expect("token has a signature separator");
    let mut bytes = token.clone().into_bytes();
    // Flip each bit of each byte of the signature segment in turn.
    for i in (dot + 1)..bytes.len() {
        for bit in 0..7 {
            let orig = bytes[i];
            bytes[i] = orig ^ (1u8 << bit);
            if bytes[i] == orig {
                continue;
            }
            let tampered = String::from_utf8(bytes.clone()).expect("still valid text");
            assert_eq!(
                verify_token(&tampered, KEY, 0).unwrap_err(),
                VerificationError::BadSignature,
                "flipping bit {} of byte {} must invalidate the token",
                bit,
                i
            );
            bytes[i] = orig;
        }
    }
}

#[test]
fn payload_tampering_is_rejected() {
    let c = claims(1_000_000);
    let token = issue(&c, KEY);
    // The username length field starts right after "HS256.": turn the
    // final digit of that field up by one.
    let mut bytes = token.clone().into_bytes();
    let pos = "HS256.".len() + 18;
    bytes[pos] = if bytes[pos] == b'9' { b'0' } else { bytes[pos] + 1 };
    let tampered = String::from_utf8(bytes).expect("still valid text");
    assert!(verify_token(&tampered, KEY, 0).is_err());
}

#[test]
fn wrong_key_is_rejected() {
    let c = claims(1_000_000);
    let token = issue(&c, KEY);
    assert_eq!(
        verify_token(&token, "another-signing-key", 0).unwrap_err(),
        VerificationError::BadSignature
    );
}

#[test]
fn garbage_tokens_are_malformed() {
    assert_eq!(verify_token("", KEY, 0).unwrap_err(), VerificationError::Malformed);
    assert_eq!(verify_token("HS256", KEY, 0).unwrap_err(), VerificationError::Malformed);
    assert_eq!(verify_token("abcdef.ghi.jkl", KEY, 0).unwrap_err(), VerificationError::Malformed);
    assert_eq!(
        verify_token("HS256.notdigits.sig", KEY, 0).unwrap_err(),
        VerificationError::Malformed
    );
}

#[test]
fn empty_claim_fields_round_trip() {
    let c = UserClaims {
        username: String::new(),
        uid: String::new(),
        suid: String::new(),
        exp: 42,
    };
    let token = issue(&c, KEY);
    let got = verify_token(&token, KEY, 0).expect("empty fields are fine");
    assert_eq!(got.username, "");
    assert_eq!(got.uid, "");
    assert_eq!(got.suid, "");
    assert_eq!(got.exp, 42);
}

#[test]
fn separator_heavy_username_round_trips() {
    // Claim fields may contain the separator character and digits; the
    // fixed-width framing must not be confused by them.
    let c = UserClaims {
        username: "a.b.c.999.HS256.".to_string(),
        uid: "0000000000000000000".to_string(),
        suid: ".".to_string(),
        exp: 7,
    };
    let token = issue(&c, KEY);
    let got = verify_token(&token, KEY, 3).expect("dots in fields are fine");
    assert_eq!(got.username, c.username);
    assert_eq!(got.uid, c.uid);
    assert_eq!(got.suid, c.suid);
}
