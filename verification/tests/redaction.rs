use provenex_ingest::canonical::{canonical_bytes, canonical_json};
use provenex_ingest::digest::hmac_content;
use provenex_ingest::json::Json;
use provenex_ingest::redact::{
    content_of, digest_json, find_target, hash_otlp_body, is_redacted_field, parse_payload,
    redact_payload, transform_attributes, walk, PayloadError,
};
use serde_json::Value;

fn value(text: &str) -> Value {
    serde_json::from_str(text).unwrap()
}

fn json(text: &str) -> Json {
    Json::from_value(value(text))
}

fn entries(text: &str) -> Vec<(String, Json)> {
    match json(text) {
        Json::Object(entries) => entries,
        _ => panic!("no object"),
    }
}

fn hashed(text: &str, salt: &str) -> String {
    String::from_utf8(hash_otlp_body(text.as_bytes(), salt).unwrap()).unwrap()
}

#[test]
fn hmac_same_content_same_salt_produces_same_hash() {
    let a = hmac_content("hello world", "salt-1");
    let b = hmac_content("hello world", "salt-1");
    assert_eq!(a, b);
}

#[test]
fn hmac_same_content_different_salt_produces_different_hash() {
    let a = hmac_content("hello world", "salt-1");
    let b = hmac_content("hello world", "salt-2");
    assert_ne!(a, b);
}

#[test]
fn hash_otlp_replaces_input_messages_but_keeps_resource_uri() {
    let payload = value(
        r#"{
            "resourceSpans": [{
                "scopeSpans": [{
                    "spans": [{
                        "attributes": [
                            { "key": "gen_ai.input.messages", "value": { "stringValue": "Hello assistant, please help me" } },
                            { "key": "gen_ai.data_source.id", "value": { "stringValue": "outlook://mailbox/inbox/external/promo" } },
                            { "key": "enduser.id",           "value": { "stringValue": "alice@acme.com" } },
                            { "key": "gen_ai.operation.name", "value": { "stringValue": "chat" } }
                        ]
                    }]
                }]
            }]
        }"#,
    );
    let body = serde_json::to_vec(&payload).unwrap();
    let out = hash_otlp_body(&body, "the-salt").unwrap();
    let s = String::from_utf8(out).unwrap();
    assert!(!s.contains("Hello assistant"));
    assert!(!s.contains("alice@acme.com"));
    assert!(s.contains("hmac-sha256:"));
    assert!(s.contains("outlook://mailbox/inbox/external/promo"));
    assert!(s.contains("gen_ai.operation.name"));
    assert!(s.contains("\"chat\""));
}

#[test]
fn hash_otlp_hashes_structured_array_values_and_event_attributes() {
    let payload = value(
        r#"{
            "resourceSpans": [{
                "scopeSpans": [{
                    "spans": [{
                        "attributes": [
                            { "key": "gen_ai.input.messages", "value": { "arrayValue": { "values": [
                                { "kvlistValue": { "values": [
                                    { "key": "role", "value": { "stringValue": "user" } },
                                    { "key": "content", "value": { "stringValue": "secret prompt body" } }
                                ] } }
                            ] } } }
                        ],
                        "events": [{
                            "name": "gen_ai.content.completion",
                            "attributes": [
                                { "key": "gen_ai.output.messages", "value": { "stringValue": "secret completion" } }
                            ]
                        }]
                    }]
                }]
            }]
        }"#,
    );
    let body = serde_json::to_vec(&payload).unwrap();
    let out = hash_otlp_body(&body, "the-salt").unwrap();
    let s = String::from_utf8(out).unwrap();
    assert!(
        !s.contains("secret prompt body"),
        "structured content leaked: {s}"
    );
    assert!(
        !s.contains("secret completion"),
        "event content leaked: {s}"
    );
    assert!(
        !s.contains("arrayValue"),
        "structured value not replaced: {s}"
    );
    assert!(s.contains("hmac-sha256:"));
}

#[test]
fn canonical_json_is_key_order_independent() {
    let a: Value = serde_json::from_str(r#"{"b":1,"a":[{"y":2,"x":3}]}"#).unwrap();
    let b: Value = serde_json::from_str(r#"{"a":[{"x":3,"y":2}],"b":1}"#).unwrap();
    assert_eq!(
        canonical_json(&Json::from_value(a)),
        canonical_json(&Json::from_value(b))
    );
}

#[test]
fn digests_are_hmac_sha256_in_hexadecimal() {
    assert_eq!(
        hmac_content("what do ya want for nothing?", "Jefe"),
        "5bdcc146bf60754e6a042426089575c75a003f089d2739839dec58b964ec3843"
    );
    assert_eq!(
        hmac_content("", ""),
        "b613679a0814d9ec772f95d778c35fc5ff1697c493715653c6c712144292c5ad"
    );
    assert_eq!(
        hmac_content("hello world", "salt-1"),
        "49beb03200a903c7ad0b977e56faafb0360e659816ffe77a2556900fcedd9577"
    );
    // A key longer than a block, and content outside ASCII.
    assert_eq!(
        hmac_content("é", &"k".repeat(100)),
        "3ac1b3a5dd3261f739971f9de6cb1453d13028b88d2a08bb1e7c0cd12a28f365"
    );
}

#[test]
fn canonical_text_sorts_members_in_the_order_given() {
    let x = Json::Object(vec![
        ("b".to_string(), json("1")),
        (
            "a".to_string(),
            Json::Array(vec![
                Json::Object(vec![
                    ("y".to_string(), Json::Null),
                    ("x".to_string(), Json::Bool(true)),
                ]),
                Json::Bool(false),
            ]),
        ),
        ("B".to_string(), Json::Text("q\"\\\n\u{1}é".to_string())),
    ]);
    let text = r#"{"B":"q\"\\\n\u0001é","a":[{"x":true,"y":null},false],"b":1}"#;
    assert_eq!(canonical_json(&x), text);
    assert_eq!(canonical_bytes(x), text.as_bytes());
    assert_eq!(canonical_json(&json("[]")), "[]");
    assert_eq!(canonical_json(&json("{}")), "{}");
    assert_eq!(canonical_json(&json("-1.50")), "-1.5");
    assert_eq!(canonical_json(&json("18446744073709551615")), "18446744073709551615");
    assert_eq!(canonical_json(&json("\"a\\u0008\\t\\f\\r/\"")), "\"a\\b\\t\\f\\r/\"");
}

#[test]
fn canonical_text_is_what_serde_json_writes() {
    let text = r#"{"z":[1,2.5,{"k":"v\u001f","a":{}}],"m":"€","":[[],[null]]}"#;
    assert_eq!(
        canonical_json(&json(text)),
        serde_json::to_string(&value(text)).unwrap()
    );
    assert_eq!(
        canonical_bytes(json(text)),
        serde_json::to_vec(&value(text)).unwrap()
    );
}

#[test]
fn canonical_texts_tell_contents_apart() {
    let texts = [
        "null", "true", "false", "0", "1", "10", "-1", "\"1\"", "\"\"", "\"\\\"\"", "[]", "[[]]",
        "[1,0]", "[10]", "[\"1,0\"]", "{}", "{\"a\":1}", "{\"a\":[1]}", "{\"a\":1,\"b\":1}",
        "{\"a:1,b\":1}", "{\"\":null}", "[{}]", "[{},{}]", "\"\\u001f\"", "\"u001f\"", "[1,[0]]",
    ];
    for (i, a) in texts.iter().enumerate() {
        let text = canonical_json(&json(a));
        assert_eq!(json(&text), json(a));
        for b in &texts[i + 1..] {
            assert_ne!(text, canonical_json(&json(b)), "{a} and {b}");
        }
    }
}

#[test]
fn canonical_keys_ascend_at_every_depth_and_blanks_stand_in_strings_only() {
    assert_eq!(
        canonical_json(&json(
            "{ \"b\" : [ { \"d d\" : 1 , \"c\\n\" : \" \" } ] , \"a\" : { \"z\" : 0 , \"y\" : -7 } }"
        )),
        r#"{"a":{"y":-7,"z":0},"b":[{"c\n":" ","d d":1}]}"#
    );
}

#[test]
fn trees_come_back_from_serde_json() {
    let text = r#"{"a":[1,-2,3.5,true,null,"s"],"b":{"c":{}}}"#;
    assert_eq!(json(text).into_value(), value(text));
    assert_eq!(json(text).clone(), json(text));
}

#[test]
fn content_and_identity_fields_are_known() {
    for name in [
        "gen_ai.input.messages",
        "gen_ai.output.messages",
        "gen_ai.tool.call.arguments",
        "gen_ai.tool.call.result",
        "gen_ai.system_instructions",
        "enduser.id",
        "user.id",
        "gen_ai.user.id",
    ] {
        assert!(is_redacted_field(name), "{name}");
    }
    for name in ["", "gen_ai.data_source.id", "gen_ai.operation.name", "USER.ID", "user.id "] {
        assert!(!is_redacted_field(name), "{name}");
    }
}

#[test]
fn attributes_are_replaced_by_their_digest() {
    let mut e = entries(r#"{"key":"enduser.id","other":1,"value":{"stringValue":"alice@acme.com"}}"#);
    assert_eq!(find_target(&e), Some(2));
    assert_eq!(transform_attributes(&mut e, "the-salt"), Some(2));
    let digest = "8d38a78c0bca2df6e810b05c1a77f249e9eb2dd29019c5634889306b7ea9aa80";
    assert_eq!(e[2].1, digest_json(digest));
    assert_eq!(
        canonical_json(&Json::Object(e)),
        format!(
            r#"{{"key":"enduser.id","other":1,"value":{{"stringValue":"hmac-sha256:{digest}"}}}}"#
        )
    );
}

#[test]
fn attributes_without_content_stay() {
    for text in [
        r#"{"value":{"stringValue":"x"}}"#,
        r#"{"key":7,"value":{"stringValue":"x"}}"#,
        r#"{"key":"gen_ai.operation.name","value":{"stringValue":"x"}}"#,
        r#"{"key":"user.id"}"#,
        r#"{"key":"user.id","value":"x"}"#,
        r#"{"key":"user.id","value":{}}"#,
    ] {
        let mut e = entries(text);
        assert_eq!(find_target(&e), None, "{text}");
        assert_eq!(transform_attributes(&mut e, "s"), None, "{text}");
        assert_eq!(Json::Object(e), json(text), "{text}");
        assert_eq!(hashed(text, "s"), text);
    }
}

#[test]
fn structured_content_is_digested_in_canonical_form() {
    let one = json(r#"{"arrayValue":{"values":[{"b":2,"a":1}]}}"#);
    assert_eq!(content_of(&one), r#"{"arrayValue":{"values":[{"a":1,"b":2}]}}"#);
    assert_eq!(content_of(&json(r#"{"stringValue":"as it is"}"#)), "as it is");
    // A string value that is no string counts as structured content.
    assert_eq!(content_of(&json(r#"{"stringValue":3}"#)), r#"{"stringValue":3}"#);
    assert_eq!(
        hashed(
            r#"{"key":"user.id","value":{"arrayValue":{"values":[{"b":2,"a":1}]}}}"#,
            "s"
        ),
        r#"{"key":"user.id","value":{"stringValue":"hmac-sha256:e5b08e5403b7bb32efe659b889282e5374dfeb7e65e67c0714296c977e6f954c"}}"#
    );
    assert_eq!(
        hashed(r#"{"key":"user.id","value":{"intValue":7}}"#, "s"),
        r#"{"key":"user.id","value":{"stringValue":"hmac-sha256:60695a269b9813465067f39bb6520924b50117f1db34a838c13a01523d7d782f"}}"#
    );
    assert_eq!(
        hashed(r#"{"key":"user.id","value":{"stringValue":3}}"#, "s"),
        r#"{"key":"user.id","value":{"stringValue":"hmac-sha256:1dcd2ab72a52fe1c3722de9d5755a03bd179cb8c80298e0dc28085a27c348689"}}"#
    );
}

#[test]
fn the_order_of_members_does_not_change_a_digest() {
    let a = Json::Object(vec![
        ("y".to_string(), Json::Bool(true)),
        ("x".to_string(), Json::Null),
    ]);
    let b = Json::Object(vec![
        ("x".to_string(), Json::Null),
        ("y".to_string(), Json::Bool(true)),
    ]);
    assert_ne!(a, b);
    assert_eq!(
        hmac_content(&content_of(&a), "s"),
        hmac_content(&content_of(&b), "s")
    );
}

#[test]
fn redaction_reaches_every_depth_and_keeps_the_rest() {
    let text = r#"[[{"deep":{"key":"user.id","value":{"stringValue":"Hello"}}}],{"key":"k","value":{"stringValue":"Hello"}}]"#;
    let mut tree = json(text);
    walk(&mut tree, "the-salt");
    let want = r#"[[{"deep":{"key":"user.id","value":{"stringValue":"hmac-sha256:7d097adcde14572126aa7018191e5ba7b9a6e677e0f8ead8e9be0abf3e0b1e14"}}}],{"key":"k","value":{"stringValue":"Hello"}}]"#;
    assert_eq!(canonical_json(&tree), want);
    assert_eq!(redact_payload(json(text), "the-salt"), want.as_bytes());
    assert_eq!(hashed(text, "the-salt"), want);
    let plain = r#"{"a":[1,{"b":"c"}],"d":null}"#;
    assert_eq!(hashed(plain, "the-salt"), plain);
}

#[test]
fn what_is_sent_reads_as_the_redacted_payload() {
    let text = r#"{"z":[{"value":{"stringValue":"Hello"},"key":"user.id"}],"a":-1}"#;
    let mut tree = json(text);
    walk(&mut tree, "the-salt");
    let sent = hash_otlp_body(text.as_bytes(), "the-salt").unwrap();
    assert_eq!(parse_payload(&sent).unwrap(), tree);
}

#[test]
fn a_payload_that_is_no_json_is_rejected() {
    let words = serde_json::from_slice::<Value>(b"{nope").unwrap_err().to_string();
    let e = hash_otlp_body(b"{nope", "s").unwrap_err();
    assert_eq!(e.message(), format!("parse OTLP JSON: {words}"));
    assert!(matches!(&e, PayloadError::NotJson(w) if *w == words));
    assert!(parse_payload(b"").is_err());
    assert!(parse_payload(b"\"\xff\"").is_err());
    assert_eq!(parse_payload(b" [1] ").unwrap(), json("[1]"));
}
