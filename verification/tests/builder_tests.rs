use paseto_builder::codec::decode_token;
use paseto_builder::Claim;
use paseto_builder::SharedKey;
use paseto_builder::TokenBuilder;
use paseto_builder::{Local, V2};
use paseto_builder::TokenError;
use serde_json::Value;

fn test_key() -> SharedKey {
    SharedKey::from_bytes(b"wubbalubbadubdubwubbalubbadubdub".to_vec()).unwrap()
}

#[test]
fn basic_builder_test() {
    let key = test_key();

    let mut builder = TokenBuilder::<V2, Local>::default();
    builder.set_claim(Claim::string("aud".to_string(), "customers".to_string()));
    builder.set_claim(Claim::string("sub".to_string(), "loyal subjects".to_string()));
    builder.set_claim(Claim::string(
        "exp".to_string(),
        "2019-01-01T00:00:00+00:00".to_string(),
    ));
    builder.set_claim(Claim::string(
        "data".to_string(),
        "this is a secret message".to_string(),
    ));
    builder.set_claim(Claim::integer("seats".to_string(), 4));
    builder.set_claim(Claim::number(
        "any ol' pi".to_string(),
        format!("{}", 3.141526),
    ));
    let token = builder.build(&key).unwrap();

    let decrypted = decode_token(&token, &None, &key).unwrap();
    let json: Value = serde_json::from_slice(&decrypted).unwrap();

    assert_eq!(json["aud"], "customers");
    assert_eq!(json["data"], "this is a secret message");
    assert_eq!(json["exp"], "2019-01-01T00:00:00+00:00");
    assert_eq!(json["sub"], "loyal subjects");
    assert_eq!(json["any ol' pi"], 3.141526);
    assert_eq!(json["seats"], 4);
}

#[test]
fn dynamic_claims_test() {
    let key = test_key();

    let mut builder = TokenBuilder::<V2, Local>::default();
    builder.set_claim(Claim::string(
        "exp".to_string(),
        "2019-01-01T00:00:00+00:00".to_string(),
    ));
    for n in 1..10 {
        builder.set_claim(Claim::integer(format!("n{}", n), n));
    }
    let token = builder.build(&key).unwrap();

    let decrypted = decode_token(&token, &None, &key).unwrap();
    let json: Value = serde_json::from_slice(&decrypted).unwrap();

    for n in 1..10 {
        assert_eq!(json[format!("n{}", n)], n);
    }
    assert_eq!(json["exp"], "2019-01-01T00:00:00+00:00");
}

#[test]
fn test_no_claims() {
    let key = test_key();

    let mut builder = TokenBuilder::<V2, Local>::default();
    let token = builder.build(&key).unwrap();

    let decrypted = decode_token(&token, &None, &key).unwrap();
    assert_eq!(decrypted, b"{}".to_vec());
}

#[test]
fn last_write_wins() {
    let key = test_key();

    let mut builder = TokenBuilder::<V2, Local>::default();
    builder.set_claim(Claim::string("k".to_string(), "first".to_string()));
    builder.set_claim(Claim::string("k".to_string(), "second".to_string()));
    let token = builder.build(&key).unwrap();

    let decrypted = decode_token(&token, &None, &key).unwrap();
    assert_eq!(decrypted, b"{\"k\":\"second\"}".to_vec());
}

#[test]
fn insertion_order_is_immaterial() {
    let key = test_key();

    let mut one = TokenBuilder::<V2, Local>::default();
    one.set_claim(Claim::string("aud".to_string(), "customers".to_string()));
    one.set_claim(Claim::integer("seats".to_string(), 4));
    one.set_claim(Claim::boolean("ok".to_string(), true));
    let token_one = one.build(&key).unwrap();

    let mut two = TokenBuilder::<V2, Local>::default();
    two.set_claim(Claim::boolean("ok".to_string(), true));
    two.set_claim(Claim::integer("seats".to_string(), 4));
    two.set_claim(Claim::string("aud".to_string(), "customers".to_string()));
    let token_two = two.build(&key).unwrap();

    let json_one: Value =
        serde_json::from_slice(&decode_token(&token_one, &None, &key).unwrap()).unwrap();
    let json_two: Value =
        serde_json::from_slice(&decode_token(&token_two, &None, &key).unwrap()).unwrap();
    assert_eq!(json_one, json_two);
}

#[test]
fn numbers_round_trip_exactly() {
    let key = test_key();

    let mut builder = TokenBuilder::<V2, Local>::default();
    builder.set_claim(Claim::number("pi".to_string(), format!("{}", 3.141526)));
    builder.set_claim(Claim::number("big".to_string(), "1.5e10".to_string()));
    builder.set_claim(Claim::integer("min".to_string(), i64::MIN));
    builder.set_claim(Claim::integer("max".to_string(), i64::MAX));
    builder.set_claim(Claim::integer("neg".to_string(), -42));
    let token = builder.build(&key).unwrap();

    let decrypted = decode_token(&token, &None, &key).unwrap();
    let json: Value = serde_json::from_slice(&decrypted).unwrap();
    assert_eq!(json["pi"], 3.141526);
    assert_eq!(json["big"], 1.5e10);
    assert_eq!(json["min"], i64::MIN);
    assert_eq!(json["max"], i64::MAX);
    assert_eq!(json["neg"], -42);
}

#[test]
fn strings_are_escaped() {
    let key = test_key();
    let tricky = "say \"hi\"\\ a\tb\nc\u{1f680}\u{e9}{}";

    let mut builder = TokenBuilder::<V2, Local>::default();
    builder.set_claim(Claim::string("q".to_string(), tricky.to_string()));
    let token = builder.build(&key).unwrap();

    let decrypted = decode_token(&token, &None, &key).unwrap();
    let json: Value = serde_json::from_slice(&decrypted).unwrap();
    assert_eq!(json["q"], tricky);
}

#[test]
fn booleans_and_null() {
    let key = test_key();

    let mut builder = TokenBuilder::<V2, Local>::default();
    builder.set_claim(Claim::boolean("yes".to_string(), true));
    builder.set_claim(Claim::boolean("no".to_string(), false));
    builder.set_claim(Claim::null("nothing".to_string()));
    let token = builder.build(&key).unwrap();

    let decrypted = decode_token(&token, &None, &key).unwrap();
    let json: Value = serde_json::from_slice(&decrypted).unwrap();
    assert_eq!(json["yes"], true);
    assert_eq!(json["no"], false);
    assert_eq!(json["nothing"], Value::Null);
}

#[test]
fn footer_round_trip_and_mismatch() {
    let key = test_key();
    let footer = b"universe c137".to_vec();

    let mut builder = TokenBuilder::<V2, Local>::default();
    builder.set_claim(Claim::string("aud".to_string(), "customers".to_string()));
    builder.set_footer(Some(footer.clone()));
    let token = builder.build(&key).unwrap();

    let decrypted = decode_token(&token, &Some(footer), &key).unwrap();
    assert_eq!(decrypted, b"{\"aud\":\"customers\"}".to_vec());

    assert_eq!(
        decode_token(&token, &None, &key),
        Err(TokenError::FooterMismatch)
    );
    assert_eq!(
        decode_token(&token, &Some(b"wrong".to_vec()), &key),
        Err(TokenError::FooterMismatch)
    );
}

#[test]
fn bad_numeral_aborts_build() {
    let key = test_key();

    let mut builder = TokenBuilder::<V2, Local>::default();
    builder.set_claim(Claim::number("x".to_string(), "not a number".to_string()));
    assert_eq!(builder.build(&key), Err(TokenError::ClaimSerialization));

    let mut leading_zero = TokenBuilder::<V2, Local>::default();
    leading_zero.set_claim(Claim::number("x".to_string(), "01".to_string()));
    assert_eq!(leading_zero.build(&key), Err(TokenError::ClaimSerialization));

    // After the failed build the claims are drained: a fresh build succeeds.
    let token = builder.build(&key).unwrap();
    assert_eq!(decode_token(&token, &None, &key).unwrap(), b"{}".to_vec());
}

#[test]
fn builder_is_drained_by_build() {
    let key = test_key();

    let mut builder = TokenBuilder::<V2, Local>::default();
    builder.set_claim(Claim::string("aud".to_string(), "customers".to_string()));
    let first = builder.build(&key).unwrap();
    assert_eq!(
        decode_token(&first, &None, &key).unwrap(),
        b"{\"aud\":\"customers\"}".to_vec()
    );

    let second = builder.build(&key).unwrap();
    assert_eq!(decode_token(&second, &None, &key).unwrap(), b"{}".to_vec());
}

#[test]
fn malformed_tokens_are_refused() {
    let key = test_key();

    // Odd length and non-hexadecimal text are not tokens at all.
    assert_eq!(
        decode_token("abc", &None, &key),
        Err(TokenError::InvalidToken)
    );
    assert_eq!(
        decode_token("zz", &None, &key),
        Err(TokenError::InvalidToken)
    );
    // Well-formed hexadecimal that was never sealed is refused by the cipher.
    assert_eq!(decode_token("00", &None, &key), Err(TokenError::Codec));
}

#[test]
fn wrong_key_is_refused() {
    let key = test_key();
    let other = SharedKey::from_bytes(b"AAAAAAAAAAAAAAAAAAAAAAAAAAAAAAAA".to_vec()).unwrap();

    let mut builder = TokenBuilder::<V2, Local>::default();
    builder.set_claim(Claim::string("aud".to_string(), "customers".to_string()));
    let token = builder.build(&key).unwrap();

    assert_eq!(decode_token(&token, &None, &other), Err(TokenError::Codec));
}

#[test]
fn key_must_be_32_bytes() {
    assert!(SharedKey::from_bytes(vec![0u8; 31]).is_none());
    assert!(SharedKey::from_bytes(vec![0u8; 33]).is_none());
    assert!(SharedKey::from_bytes(vec![0u8; 32]).is_some());
}
