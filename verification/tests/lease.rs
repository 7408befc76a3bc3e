use base64::engine::general_purpose::URL_SAFE_NO_PAD as B64;
use base64::Engine;
use hmac::{Hmac, KeyInit, Mac};
use sha2::Sha256;
use wincrust::lease::{moment, new_key, now, open, LeaseError, Scope, DEFAULT_TTL_SECS};
use wincrust::scope_text::read_written;

/// Reads a scope from the JSON that a token carries.
fn read(data: &[u8]) -> Result<Scope, String> {
    let v: serde_json::Value = serde_json::from_slice(data).map_err(|e| e.to_string())?;
    Ok(Scope {
        hwnd: v["h"].as_i64().ok_or("h")? as isize,
        generation: v["g"].as_u64().ok_or("g")?,
        exp: v["e"].as_u64().ok_or("e")?,
    })
}

fn decode(token: &str, key: &[u8]) -> Result<Scope, LeaseError> {
    Scope::decode(token, key, read)
}

fn key() -> Vec<u8> {
    vec![7u8; 32]
}

fn scope(exp_offset: i64) -> Scope {
    Scope {
        hwnd: 0x1234,
        generation: 0xdead_beef,
        exp: (now() as i64 + exp_offset) as u64,
    }
}

#[test]
fn round_trips() {
    let s = scope(60);
    let back = decode(&s.encode(&key()).unwrap(), &key()).unwrap();
    assert_eq!(back.hwnd, s.hwnd);
    assert_eq!(back.generation, s.generation);
    assert_eq!(back.exp, s.exp);
}

#[test]
fn rejects_a_different_key() {
    let token = scope(60).encode(&key()).unwrap();
    let err = decode(&token, &[9u8; 32]).unwrap_err().message();
    assert!(err.contains("signature"), "unexpected error: {err}");
}

/// The payload is what authorises a window; flipping a bit in it must not
/// survive verification, or the signature is decoration.
#[test]
fn rejects_a_tampered_payload() {
    let token = scope(60).encode(&key()).unwrap();
    let (payload, sig) = token.split_once('.').unwrap();
    let mut raw = B64.decode(payload).unwrap();
    let i = raw.len() / 2;
    raw[i] ^= 0x01;
    let forged = format!("{}.{}", B64.encode(&raw), sig);
    assert!(decode(&forged, &key()).is_err());
}

#[test]
fn rejects_a_tampered_signature() {
    let token = scope(60).encode(&key()).unwrap();
    let (payload, sig) = token.split_once('.').unwrap();
    let mut raw = B64.decode(sig).unwrap();
    raw[0] ^= 0x01;
    let forged = format!("{payload}.{}", B64.encode(&raw));
    assert!(decode(&forged, &key()).is_err());
}

#[test]
fn rejects_an_expired_scope() {
    let token = scope(-1).encode(&key()).unwrap();
    let err = decode(&token, &key()).unwrap_err().message();
    assert!(err.contains("expired"), "unexpected error: {err}");
}

#[test]
fn rejects_malformed_tokens() {
    for bad in ["", "nodot", "a.b", ".", "....", "!!!.???"] {
        assert!(
            decode(bad, &key()).is_err(),
            "accepted malformed token {bad:?}"
        );
    }
}

/// A 128-bit tag is the deliberate size; a full 256-bit tag would silently
/// double the per-response cost that the scope design exists to avoid.
#[test]
fn signature_is_truncated_to_128_bits() {
    let token = scope(60).encode(&key()).unwrap();
    let sig = token.split_once('.').unwrap().1;
    assert_eq!(B64.decode(sig).unwrap().len(), 16);
}

// --- further cases ---

#[test]
fn the_payload_is_compact_json() {
    let s = Scope { hwnd: -5, generation: u64::MAX, exp: 0 };
    assert_eq!(s.to_json(), r#"{"h":-5,"g":18446744073709551615,"e":0}"#);
    let token = s.encode(&key()).unwrap();
    let payload = token.split_once('.').unwrap().0;
    assert_eq!(B64.decode(payload).unwrap(), s.to_json().into_bytes());
    assert_eq!(open(&token, &key()).unwrap(), s.to_json().into_bytes());
}

#[test]
fn the_extremes_of_a_handle_round_trip() {
    for hwnd in [isize::MIN, -1, 0, isize::MAX] {
        let s = Scope { hwnd, generation: 0, exp: u64::MAX };
        assert_eq!(decode(&s.encode(b"k").unwrap(), b"k"), Ok(s));
    }
}

#[test]
fn each_malformation_has_its_own_error() {
    assert_eq!(decode("nodot", &key()), Err(LeaseError::Malformed));
    assert_eq!(decode("!!!.AAAA", &key()), Err(LeaseError::MalformedPayload));
    assert_eq!(decode("AAAA.!!!", &key()), Err(LeaseError::MalformedSignature));
    assert_eq!(decode("AAAA.AAAA", &key()), Err(LeaseError::SignatureInvalid));
    assert_eq!(decode("AAAA.", &key()), Err(LeaseError::SignatureInvalid));
}

#[test]
fn a_signed_payload_that_is_no_scope_is_unreadable() {
    let token = signed(b"{}");
    let r = Scope::decode(&token, &key(), |_: &[u8]| Err("missing field `h`".to_string()));
    assert_eq!(r, Err(LeaseError::Unreadable { reason: "missing field `h`".to_string() }));
}

#[test]
fn a_forged_payload_never_reaches_the_parser() {
    let token = scope(60).encode(&key()).unwrap();
    let r = Scope::decode(&token, b"another key", |_: &[u8]| -> Result<Scope, String> {
        panic!("parsed a payload whose signature does not pass")
    });
    assert_eq!(r, Err(LeaseError::SignatureInvalid));
}

#[test]
fn expiry_is_judged_by_the_second() {
    let s = Scope { hwnd: 1, generation: 2, exp: 100 };
    assert_eq!(Scope::judge(Ok(s), 100), Ok(s));
    assert_eq!(Scope::judge(Ok(s), 142), Err(LeaseError::Expired { ago: 42 }));
    assert_eq!(
        Scope::judge(Err("why".to_string()), 0),
        Err(LeaseError::Unreadable { reason: "why".to_string() })
    );
    assert!(!s.expired_at(100));
    assert!(s.expired_at(101));
    let token = s.encode(&key()).unwrap();
    assert_eq!(Scope::decode_at(&token, &key(), 100, read), Ok(s));
    assert_eq!(
        Scope::decode_at(&token, &key(), 101, read),
        Err(LeaseError::Expired { ago: 1 })
    );
}

#[test]
fn the_clock_decides_what_has_expired() {
    assert!(scope(-10).expired());
    assert!(!scope(DEFAULT_TTL_SECS as i64).expired());
    assert!(now() > 1_600_000_000);
}

#[test]
fn a_clock_set_before_the_epoch_reads_zero() {
    assert_eq!(moment(None), 0);
    assert_eq!(moment(Some(0)), 0);
    assert_eq!(moment(Some(1_700_000_000)), 1_700_000_000);
}

#[test]
fn every_error_says_what_it_is() {
    assert_eq!(LeaseError::Malformed.message(), "malformed lease");
    assert_eq!(LeaseError::MalformedPayload.message(), "malformed lease payload");
    assert_eq!(LeaseError::MalformedSignature.message(), "malformed lease signature");
    assert_eq!(LeaseError::SignatureInvalid.message(), "lease signature invalid");
    let reason = || "no such thing".to_string();
    assert_eq!(LeaseError::Unreadable { reason: reason() }.message(), "no such thing");
    assert_eq!(LeaseError::Expired { ago: 7 }.message(), "lease expired 7s ago");
    assert_eq!(
        LeaseError::NoRandomness { reason: reason() }.message(),
        "getrandom failed: no such thing"
    );
}

#[test]
fn a_new_key_is_32_fresh_bytes() {
    let a = new_key().unwrap();
    let b = new_key().unwrap();
    assert_eq!((a.len(), b.len()), (32, 32));
    assert_ne!(a, b);
    assert_ne!(a, vec![0u8; 32]);
}

/// The whole code of some bytes, of which the signature is the start.
fn whole_code(data: &[u8]) -> Vec<u8> {
    let mut mac = Hmac::<Sha256>::new_from_slice(&key()).unwrap();
    mac.update(data);
    mac.finalize().into_bytes().to_vec()
}

/// A token that carries any bytes, signed as they are.
fn signed(data: &[u8]) -> String {
    format!("{}.{}", B64.encode(data), B64.encode(&whole_code(data)[..16]))
}

#[test]
fn what_was_signed_comes_back_whatever_the_reader() {
    let s = Scope { hwnd: -77, generation: 3, exp: u64::MAX };
    let token = s.encode(&key()).unwrap();
    assert_eq!(token, signed(s.to_json().as_bytes()));
    let r = Scope::decode(&token, &key(), |_: &[u8]| -> Result<Scope, String> {
        panic!("asked a reader for what is known")
    });
    assert_eq!(r, Ok(s));
}

#[test]
fn a_scope_in_another_form_is_left_to_the_reader() {
    let s = Scope { hwnd: 5, generation: 6, exp: 7 };
    let token = signed(br#"{ "e": 7, "g": 6, "h": 5 }"#);
    assert_eq!(Scope::decode_at(&token, &key(), 7, read), Ok(s));
    assert_eq!(
        Scope::decode_at(&token, &key(), 9, read),
        Err(LeaseError::Expired { ago: 2 })
    );
}

#[test]
fn a_scope_is_read_back_from_its_own_form() {
    for hwnd in [isize::MIN, isize::MIN + 1, -10, -1, 0, 9, 10, isize::MAX] {
        for generation in [0, 1, 10, u64::MAX - 1, u64::MAX] {
            for exp in [0, 99, u64::MAX] {
                let s = Scope { hwnd, generation, exp };
                assert_eq!(read_written(s.to_json().as_bytes()), Some(s));
            }
        }
    }
}

#[test]
fn only_its_own_form_is_read_back() {
    let others: [&[u8]; 12] = [
        b"",
        b"{\"h\":",
        b"{\"h\":-",
        b"{\"h\":1,\"g\":2,\"e\":3",
        b"{\"h\":1,\"g\":2,\"e\":3} ",
        b"{\"h\":01,\"g\":2,\"e\":3}",
        b"{\"h\":-0,\"g\":2,\"e\":3}",
        b"{\"h\":1, \"g\":2,\"e\":3}",
        b"{\"g\":1,\"h\":2,\"e\":3}",
        b"{\"h\":1,\"g\":-2,\"e\":3}",
        b"{\"h\":9223372036854775808,\"g\":2,\"e\":3}",
        b"{\"h\":1,\"g\":18446744073709551616,\"e\":3}",
    ];
    for data in others {
        assert_eq!(read_written(data), None, "{}", String::from_utf8_lossy(data));
    }
    let own = b"{\"h\":-9223372036854775808,\"g\":2,\"e\":3}";
    assert_eq!(read_written(own), Some(Scope { hwnd: isize::MIN, generation: 2, exp: 3 }));
}

#[test]
fn a_piece_of_the_code_is_no_signature() {
    let token = scope(60).encode(&key()).unwrap();
    let (payload, sig) = token.split_once('.').unwrap();
    let code = whole_code(&B64.decode(payload).unwrap());
    assert_eq!(code.len(), 32);
    assert_eq!(B64.decode(sig).unwrap(), code[..16]);
    for n in 0..=32 {
        let cut = format!("{payload}.{}", B64.encode(&code[..n]));
        let r = decode(&cut, &key());
        if n == 16 {
            assert!(r.is_ok());
        } else {
            assert_eq!(r, Err(LeaseError::SignatureInvalid), "accepted {n} bytes");
        }
    }
}

#[test]
fn every_changed_byte_is_noticed() {
    let token = scope(60).encode(&key()).unwrap();
    let (payload, sig) = token.split_once('.').unwrap();
    let raw = B64.decode(payload).unwrap();
    for i in 0..raw.len() {
        let mut changed = raw.clone();
        changed[i] ^= 0x20;
        let forged = format!("{}.{sig}", B64.encode(&changed));
        assert_eq!(decode(&forged, &key()), Err(LeaseError::SignatureInvalid));
    }
    let tag = B64.decode(sig).unwrap();
    for i in 0..tag.len() {
        let mut changed = tag.clone();
        changed[i] ^= 0x80;
        let forged = format!("{payload}.{}", B64.encode(&changed));
        assert_eq!(decode(&forged, &key()), Err(LeaseError::SignatureInvalid));
    }
}

#[test]
fn a_token_decodes_until_its_last_second() {
    let s = Scope { hwnd: 9, generation: 8, exp: 7 };
    let token = s.encode(&key()).unwrap();
    assert_eq!(Scope::decode_at(&token, &key(), 7, read), Ok(s));
    let err = Scope::decode_at(&token, &key(), 8, read).unwrap_err();
    assert_eq!(err.message(), "lease expired 1s ago");
}
