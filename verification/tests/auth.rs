//! Tokens: where they stand in a path, and when they are accepted.

use jsonwebtoken::{encode, Algorithm, EncodingKey, Header};
use phantom_screen_server::auth::{
    admit_session, claims_from_payload, extract_token_from_path, token_from_payload,
    validate_token, Admission, AuthError,
};
use phantom_screen_server::base64::decode_base64;
use phantom_screen_server::payload::{read_payload, ClaimValue};
use std::time::{SystemTime, UNIX_EPOCH};

fn now_secs() -> usize {
    SystemTime::now().duration_since(UNIX_EPOCH).unwrap().as_secs() as usize
}

fn token(secret: &[u8], members: Vec<(&str, serde_json::Value)>) -> String {
    let mut claims = serde_json::Map::new();
    for (name, value) in members {
        claims.insert(name.to_string(), value);
    }
    encode(
        &Header::default(),
        &serde_json::Value::Object(claims),
        &EncodingKey::from_secret(secret),
    )
    .unwrap()
}

fn user_token(secret: &[u8], exp: usize, iat: usize) -> String {
    token(secret, vec![("sub", "user123".into()), ("exp", exp.into()), ("iat", iat.into())])
}

#[test]
fn test_validate_valid_token() {
    let secret = "test-secret-key";
    let issued = now_secs();
    let token = user_token(secret.as_bytes(), issued + 3600, issued);
    let result = validate_token(&token, secret);
    assert!(result.is_ok());
    let claims = result.unwrap().claims;
    assert_eq!(claims.sub, "user123");
    assert_eq!(claims.exp, issued + 3600);
    assert_eq!(claims.iat, issued);
}

#[test]
fn test_validate_expired_token() {
    let secret = "test-secret-key";
    let token = user_token(secret.as_bytes(), now_secs() - 100, now_secs() - 200);
    let result = validate_token(&token, secret);
    assert!(result.is_err());
    assert_eq!(result.unwrap_err().message(), "Invalid JWT token");
}

#[test]
fn test_validate_wrong_secret() {
    let token = user_token(b"correct-secret", now_secs() + 3600, now_secs());
    let result = validate_token(&token, "wrong-secret");
    assert!(result.is_err());
}

#[test]
fn test_extract_token_from_path() {
    assert_eq!(extract_token_from_path("/?token=abc123"), Some("abc123"));
    assert_eq!(extract_token_from_path("/session?token=xyz&foo=bar"), Some("xyz"));
    assert_eq!(extract_token_from_path("/session"), None);
    assert_eq!(extract_token_from_path("/?token="), None);
    assert_eq!(extract_token_from_path("/?foo=bar"), None);
}

#[test]
fn token_is_the_first_that_is_not_empty() {
    assert_eq!(extract_token_from_path("/?token=&token=b&token=c"), Some("b"));
    assert_eq!(extract_token_from_path("/?a=1&token=b"), Some("b"));
    assert_eq!(extract_token_from_path("/?a=1&xtoken=b"), None);
    assert_eq!(extract_token_from_path("/?a?token=b"), None);
    assert_eq!(extract_token_from_path("/?token=b?c"), Some("b"));
    assert_eq!(extract_token_from_path("/é?token=ü&x"), Some("ü"));
}

#[test]
fn leeway_of_a_minute_is_granted() {
    let token = user_token(b"s", now_secs() - 30, 0);
    assert!(validate_token(&token, "s").is_ok());
}

#[test]
fn missing_claims_are_refused_but_iat_is_optional() {
    let exp = now_secs() + 3600;
    let no_sub = token(b"s", vec![("exp", exp.into())]);
    assert!(validate_token(&no_sub, "s").is_err());
    let no_exp = token(b"s", vec![("sub", "u".into())]);
    assert!(validate_token(&no_exp, "s").is_err());
    let no_iat = token(b"s", vec![("sub", "u".into()), ("exp", exp.into())]);
    assert_eq!(validate_token(&no_iat, "s").unwrap().claims.iat, 0);
}

#[test]
fn claims_of_another_type_are_refused() {
    let exp = now_secs() + 3600;
    let fraction = token(b"s", vec![("sub", "u".into()), ("exp", (exp as f64 + 0.5).into())]);
    assert!(validate_token(&fraction, "s").is_err());
    let iat_text =
        token(b"s", vec![("sub", "u".into()), ("exp", exp.into()), ("iat", "now".into())]);
    assert!(validate_token(&iat_text, "s").is_err());
    let sub_number = token(b"s", vec![("sub", 7.into()), ("exp", exp.into())]);
    assert!(validate_token(&sub_number, "s").is_err());
}

#[test]
fn an_audience_is_not_looked_at() {
    let exp = now_secs() + 3600;
    let t = token(b"s", vec![("sub", "u".into()), ("exp", exp.into()), ("aud", "x".into())]);
    assert_eq!(validate_token(&t, "s").unwrap().claims.sub, "u");
}

#[test]
fn payload_without_a_network() {
    let payload = vec![
        ("exp".to_string(), ClaimValue::Number(5)),
        ("sub".to_string(), ClaimValue::Text("u".to_string())),
        ("iat".to_string(), ClaimValue::Number(3)),
    ];
    let claims = claims_from_payload(&payload).unwrap();
    assert_eq!((claims.sub.as_str(), claims.exp, claims.iat), ("u", 5, 3));
    let broken = vec![("exp".to_string(), ClaimValue::Other)];
    assert_eq!(claims_from_payload(&broken).unwrap_err(), AuthError::InvalidToken);
}

/// A token whose payload is this JSON text, as it stands.
fn raw_token(secret: &[u8], payload: &str) -> String {
    let payload = serde_json::value::RawValue::from_string(payload.to_string()).unwrap();
    encode(&Header::default(), &payload, &EncodingKey::from_secret(secret)).unwrap()
}

#[test]
fn a_claim_that_is_read_may_not_be_made_twice() {
    let exp = now_secs() + 3600;
    let twice = |member: &str| {
        let payload = format!(r#"{{"sub":"u","exp":{exp},"iat":1,{member}}}"#);
        validate_token(&raw_token(b"s", &payload), "s")
    };
    assert_eq!(twice(r#""iat":1"#).unwrap_err(), AuthError::InvalidToken);
    assert_eq!(twice(r#""i\u0061t":2"#).unwrap_err(), AuthError::InvalidToken);
    assert_eq!(twice(r#""sub":"u""#).unwrap_err(), AuthError::InvalidToken);
    assert_eq!(twice(&format!(r#""exp":{exp}"#)).unwrap_err(), AuthError::InvalidToken);
    assert_eq!(twice(r#""x":1,"x":2"#).unwrap().claims.iat, 1);

    let payload = vec![
        ("exp".to_string(), ClaimValue::Number(5)),
        ("iat".to_string(), ClaimValue::Number(3)),
        ("sub".to_string(), ClaimValue::Text("u".to_string())),
        ("iat".to_string(), ClaimValue::Number(3)),
    ];
    assert_eq!(claims_from_payload(&payload).unwrap_err(), AuthError::InvalidToken);
}

#[test]
fn claims_that_are_not_read_may_hold_anything() {
    let exp = now_secs() + 3600;
    let with = |value: &str| {
        let payload = format!(" {{ \"x\" : {value} ,\n\"sub\":\"\\u00fc\", \"exp\":{exp} }} ");
        validate_token(&raw_token(b"s", &payload), "s").unwrap().claims.sub
    };
    let deep = format!("{}{}", "[".repeat(300), "]".repeat(300));
    for value in [deep.as_str(), "1e999", r#""\ud800""#, "null", r#"{"iat":"x","a":[1,2]}"#, "-0.5"] {
        assert_eq!(with(value), "ü");
    }
}

#[test]
fn payloads_are_read_member_by_member() {
    let text = r#"{"a":"x\n","b" : 18446744073709551615 , "c":-1,"a":1.5, "":[{"d":1}]}"#;
    let claims = read_payload(text.as_bytes()).unwrap();
    assert_eq!(claims.iter().map(|c| c.0.as_str()).collect::<Vec<_>>(), ["a", "b", "c", "a", ""]);
    assert!(matches!(&claims[0].1, ClaimValue::Text(t) if t == "x\n"));
    assert!(matches!(claims[1].1, ClaimValue::Number(u64::MAX)));
    assert!(matches!(claims[2].1, ClaimValue::Other));
    assert!(matches!(claims[3].1, ClaimValue::Other));
    assert!(matches!(claims[4].1, ClaimValue::Other));
    assert_eq!(read_payload(b"{ }").unwrap().len(), 0);
    for text in ["", "[]", "[1]", "1", "{", "{\"a\"}", "{\"a\":}", "{\"a\":1,}", "{\"a\":1}x"] {
        assert!(read_payload(text.as_bytes()).is_none(), "{}", text);
    }
}

/// Bytes in base64, as the parts of a token are written.
fn base64(bytes: &[u8]) -> String {
    let alphabet: Vec<char> = ('A'..='Z').chain('a'..='z').chain('0'..='9').chain("-_".chars()).collect();
    let mut text = String::new();
    for group in bytes.chunks(3) {
        let mut word = 0usize;
        for i in 0..3 {
            word = word * 256 + *group.get(i).unwrap_or(&0) as usize;
        }
        for i in 0..group.len() + 1 {
            text.push(alphabet[word >> (18 - 6 * i) & 63]);
        }
    }
    text
}

#[test]
fn a_claim_that_is_not_read_need_not_be_utf8() {
    let mut payload = format!(r#"{{"sub":"u","exp":{},"x":""#, now_secs() + 3600).into_bytes();
    payload.extend([0xff, 0xfe]);
    payload.extend(br#""}"#);
    let message = format!("{}.{}", base64(br#"{"alg":"HS256"}"#), base64(&payload));
    let key = EncodingKey::from_secret(b"s");
    let signature = jsonwebtoken::crypto::sign(message.as_bytes(), &key, Algorithm::HS256).unwrap();
    let token = format!("{message}.{signature}");
    assert_eq!(validate_token(&token, "s").unwrap().claims.sub, "u");
    assert!(validate_token(&token, "t").is_err());
    assert_eq!(token_from_payload(&payload).unwrap().claims.sub, "u");
    assert_eq!(token_from_payload(b"[]").unwrap_err(), AuthError::InvalidToken);
    assert_eq!(token_from_payload(b"{}").unwrap_err(), AuthError::InvalidToken);
}

#[test]
fn base64_is_read() {
    let decode = |text: &str| decode_base64(&text.chars().collect::<Vec<char>>());
    assert_eq!(decode(""), Some(vec![]));
    assert_eq!(decode("Zg"), Some(b"f".to_vec()));
    assert_eq!(decode("Zm8"), Some(b"fo".to_vec()));
    assert_eq!(decode("Zm9v"), Some(b"foo".to_vec()));
    assert_eq!(decode("Zm9vYmFy"), Some(b"foobar".to_vec()));
    assert_eq!(decode("-_8"), Some(vec![0xfb, 0xff]));
    let bytes: Vec<u8> = (0..=255).collect();
    assert_eq!(decode(&base64(&bytes)), Some(bytes));
    for text in ["Z", "Zm9vY", "Zh", "Zm9", "Zg==", "Zm+v", "Zm/v", "Z g", "Zé"] {
        assert_eq!(decode(text), None, "{}", text);
    }
}

#[test]
fn the_latest_expiry_never_passes() {
    let payload = format!(r#"{{"sub":"u","exp":{}}}"#, u64::MAX);
    assert_eq!(validate_token(&raw_token(b"s", &payload), "s").unwrap().claims.exp, usize::MAX);
}

#[test]
fn sessions_are_admitted_by_token() {
    assert!(matches!(admit_session("/", None), Admission::Open));
    assert!(matches!(admit_session("/", Some("s")), Admission::NoToken));
    let refused = admit_session("/?token=abc", Some("s"));
    assert!(matches!(refused, Admission::Refused { error: AuthError::InvalidToken }));
    assert!(!refused.accepted());
    let path = format!("/session?token={}", user_token(b"s", now_secs() + 60, 0));
    let admitted = admit_session(&path, Some("s"));
    assert!(admitted.accepted());
    assert!(matches!(admitted, Admission::Authenticated { sub } if sub == "user123"));
}
