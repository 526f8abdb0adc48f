//! Exact expected values for the wire notations, cross-checked against the
//! crates that produce the same formats, plus the small helpers.
use base64::engine::general_purpose::URL_SAFE_NO_PAD;
use base64::Engine;

use authcore::ascii::bytes_eq;
use authcore::b64;
use authcore::claims::{auth_payload_bytes, parse_auth_payload, parse_reset_payload, reset_payload_bytes, AuthClaim, ResetClaim};
use authcore::csrf::{csrf_matches, issue_csrf_token};
use authcore::decimal::{enc_u64, parse_u64_at};
use authcore::error::Error;
use authcore::flows::agent_or_unknown;
use authcore::jsonstr::{escape, parse_string_at};
use authcore::skippy::QueryParams;
use authcore::skippy::SortColumn;
use authcore::skippy::SKIP_DEF;
use authcore::skippy::TAKE_DEF;
use authcore::skippy::TAKE_MAX;
use authcore::uuidfmt::{enc_uuid, parse_uuid_at};

#[test]
fn base64url_matches_the_base64_crate() {
    let cases: Vec<Vec<u8>> = vec![
        vec![],
        vec![0],
        vec![255],
        vec![1, 2],
        vec![1, 2, 3],
        vec![251, 239, 190, 173, 222, 0, 1],
        (0u8..=255).collect(),
    ];
    for input in cases {
        let ours = b64::encode(&input);
        let theirs = URL_SAFE_NO_PAD.encode(&input);
        assert_eq!(String::from_utf8(ours.clone()).unwrap(), theirs);
        let back = b64::decode(&ours).expect("own encoding must decode");
        assert!(bytes_eq(&back, &input));
    }
}

#[test]
fn base64url_decode_is_strict() {
    // Length 4k+1 never occurs in unpadded base64.
    assert!(b64::decode(&b"AAAAA".to_vec()).is_none());
    // Nonzero trailing bits are not canonical.
    assert!(b64::decode(&b"AB".to_vec()).is_none());
    assert!(b64::decode(&b"AA".to_vec()).is_some());
    // '+' and '/' belong to the standard alphabet, not this one.
    assert!(b64::decode(&b"+/".to_vec()).is_none());
    assert!(b64::decode(&b"".to_vec()).unwrap().is_empty());
}

#[test]
fn decimal_notation_exact_values() {
    assert_eq!(enc_u64(0), b"0".to_vec());
    assert_eq!(enc_u64(42), b"42".to_vec());
    assert_eq!(enc_u64(u64::MAX), b"18446744073709551615".to_vec());

    assert_eq!(parse_u64_at(&b"42,".to_vec(), 0), Some((42, 2)));
    assert_eq!(parse_u64_at(&b"0,".to_vec(), 0), Some((0, 1)));
    // Leading zeros and overflow are refused.
    assert_eq!(parse_u64_at(&b"042".to_vec(), 0), None);
    assert_eq!(parse_u64_at(&b"18446744073709551616".to_vec(), 0), None);
    assert_eq!(parse_u64_at(&b"x".to_vec(), 0), None);
}

#[test]
fn uuid_notation_matches_the_uuid_crate() {
    let values: Vec<u128> = vec![0, 1, 0x0123_4567_89ab_cdef_0123_4567_89ab_cdef, u128::MAX];
    for v in values {
        let ours = String::from_utf8(enc_uuid(v)).unwrap();
        let theirs = uuid::Uuid::from_u128(v).hyphenated().to_string();
        assert_eq!(ours, theirs);
        let bytes = ours.clone().into_bytes();
        assert_eq!(parse_uuid_at(&bytes, 0), Some(v));
    }
    // Uppercase hex is not the canonical notation.
    assert_eq!(parse_uuid_at(&b"01234567-89AB-cdef-0123-456789abcdef".to_vec(), 0), None);
}

#[test]
fn json_string_escaping_exact_values() {
    assert_eq!(escape(&b"plain".to_vec()), b"plain".to_vec());
    assert_eq!(escape(&b"a\"b".to_vec()), b"a\\\"b".to_vec());
    assert_eq!(escape(&b"a\\b".to_vec()), b"a\\\\b".to_vec());
    assert_eq!(escape(&b"\n".to_vec()), b"\\u000a".to_vec());
    // Multi-byte UTF-8 passes through raw.
    let unicode = "é".as_bytes().to_vec();
    assert_eq!(escape(&unicode), unicode);

    let mut field = escape(&b"x\"y".to_vec());
    field.push(b'"');
    let (parsed, end) = parse_string_at(&field, 0).unwrap();
    assert_eq!(parsed, b"x\"y".to_vec());
    assert_eq!(end, field.len());
    // Escapes the escaper would not produce are refused.
    assert!(parse_string_at(&b"\\u0041\"".to_vec(), 0).is_none());
    assert!(parse_string_at(&b"unterminated".to_vec(), 0).is_none());
    assert!(parse_string_at(&b"\\q\"".to_vec(), 0).is_none());
}

#[test]
fn claim_payloads_have_the_canonical_serde_shape() {
    let c = AuthClaim { user_id: 7, uuid: 0x0102_0304_0506_0708_090a_0b0c_0d0e_0f10, exp: 123 };
    let p = auth_payload_bytes(&c);
    assert_eq!(
        String::from_utf8(p.clone()).unwrap(),
        "{\"user_id\":7,\"uuid\":\"01020304-0506-0708-090a-0b0c0d0e0f10\",\"exp\":123}"
    );
    let back = parse_auth_payload(&p).unwrap();
    assert_eq!(back, c);

    let r = ResetClaim { user_id: 9, email: "a@x.com".to_string(), exp: 55 };
    let rp = reset_payload_bytes(&r);
    assert_eq!(
        String::from_utf8(rp.clone()).unwrap(),
        "{\"user_id\":9,\"email\":\"a@x.com\",\"exp\":55}"
    );
    let back = parse_reset_payload(&rp).unwrap();
    assert_eq!(back.user_id, 9);
    assert_eq!(back.email, "a@x.com");
    assert_eq!(back.exp, 55);
}

#[test]
fn claim_parsers_are_strict() {
    // serde_json would accept reordered fields; the canonical parser not.
    let reordered = b"{\"uuid\":\"01020304-0506-0708-090a-0b0c0d0e0f10\",\"user_id\":7,\"exp\":1}"
        .to_vec();
    assert!(parse_auth_payload(&reordered).is_none());
    let spaced = b"{\"user_id\": 7,\"email\":\"a@x.com\",\"exp\":1}".to_vec();
    assert!(parse_reset_payload(&spaced).is_none());
    assert!(parse_auth_payload(&b"{}".to_vec()).is_none());
}

#[test]
fn reset_payload_agrees_with_serde_json() {
    // Built by calls, not macros: the payload equals what serde_json prints
    // for the same ordered fields.
    let r = ResetClaim { user_id: 3, email: "odd\"name@x.com".to_string(), exp: 9 };
    let p = reset_payload_bytes(&r);
    let mut escaped = String::from_utf8(escape(&"odd\"name@x.com".as_bytes().to_vec())).unwrap();
    escaped = format!("{{\"user_id\":3,\"email\":\"{escaped}\",\"exp\":9}}");
    assert_eq!(String::from_utf8(p).unwrap(), escaped);
    // And serde_json parses it back to the same field values.
    let v: serde_json::Value = serde_json::from_str(&escaped).unwrap();
    assert_eq!(v.get("email").unwrap().as_str().unwrap(), "odd\"name@x.com");
    assert_eq!(v.get("user_id").unwrap().as_u64().unwrap(), 3);
}

#[test]
fn csrf_token_issue_and_match() {
    let fresh = issue_csrf_token(None);
    // 32 random bytes in unpadded base64url: 43 chars.
    assert_eq!(fresh.len(), 43);
    let again = issue_csrf_token(None);
    assert_ne!(fresh, again);
    // An existing cookie value is reused.
    let kept = issue_csrf_token(Some("existing".to_string()));
    assert_eq!(kept, "existing");

    assert!(csrf_matches(&Some("v".to_string()), &Some("v".to_string())));
    assert!(!csrf_matches(&Some("v".to_string()), &Some("w".to_string())));
    assert!(!csrf_matches(&None, &Some("v".to_string())));
    assert!(!csrf_matches(&Some("v".to_string()), &None));
    assert!(!csrf_matches(&None, &None));
}

#[test]
fn paging_defaults_and_clamp() {
    assert_eq!(authcore::skippy::skip(None, None), (SKIP_DEF, TAKE_DEF));
    assert_eq!(authcore::skippy::skip(Some(40), Some(10)), (40, 10));
    assert_eq!(authcore::skippy::skip(Some(0), Some(TAKE_MAX + 50)), (0, TAKE_MAX));
}

#[test]
fn sort_column_fallback() {
    assert_eq!(authcore::skippy::column(Some("agent".to_string()), SortColumn::Id), SortColumn::Agent);
    assert_eq!(authcore::skippy::column(Some("updated_at".to_string()), SortColumn::Id), SortColumn::UpdatedAt);
    assert_eq!(authcore::skippy::column(Some("nonsense".to_string()), SortColumn::Id), SortColumn::Id);
    assert_eq!(authcore::skippy::column(None, SortColumn::UpdatedAt), SortColumn::UpdatedAt);
    let params = QueryParams {
        skip: Some(5),
        take: None,
        sort: Some("user_id".to_string()),
        desc: Some(true),
        q: None,
    };
    assert_eq!(authcore::skippy::column(params.sort, SortColumn::Id), SortColumn::UserId);
}

#[test]
fn sort_order_fallback() {
    assert_eq!(authcore::skippy::order(Some(false), true), authcore::skippy::Order::Asc);
    assert_eq!(authcore::skippy::order(Some(true), false), authcore::skippy::Order::Desc);
    assert_eq!(authcore::skippy::order(None, true), authcore::skippy::Order::Desc);
    assert_eq!(authcore::skippy::order(None, false), authcore::skippy::Order::Asc);
}

#[test]
fn agent_defaulting() {
    assert_eq!(agent_or_unknown(Some("UA".to_string())), "UA");
    assert_eq!(agent_or_unknown(None), "Unknown");
}

#[test]
fn error_statuses_and_messages() {
    assert_eq!(Error::BadRequest("x".to_string()).status_code(), 400);
    assert_eq!(Error::InvalidCredentials.status_code(), 401);
    assert_eq!(Error::Unauthorized.status_code(), 401);
    assert_eq!(Error::Forbidden.status_code(), 403);
    assert_eq!(Error::NotFound.status_code(), 404);
    assert_eq!(Error::Internal("boom".to_string()).status_code(), 500);

    assert_eq!(Error::InvalidCredentials.message(), "Invalid Credentials");
    // Internal causes are masked outside development builds.
    let e = Error::Internal("db exploded".to_string());
    assert_eq!(e.client_message(true), "db exploded");
    assert_eq!(e.client_message(false), "Internal Server Error");
    assert_eq!(Error::NotFound.client_message(false), "Not Found");
}
