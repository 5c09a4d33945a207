use commission_store::json::{obj_to_text, parse_obj_text, JsonScalar, JsonVal};
use commission_store::num::{dec_lexeme_to_cents, i64_to_string, parse_int_lexeme};
use commission_store::records::{
    client_to_json, commission_to_json, parse_client_text, parse_commission_text, Client,
    Commission,
};

fn sample_client() -> Client {
    Client {
        id: "c1".to_string(),
        name: "Alice".to_string(),
        email: "alice@example.com".to_string(),
        contact: "".to_string(),
        profile_image: None,
        notes: Some("first \"note\"\nwith lines".to_string()),
        created_at: "2024-01-01T00:00:00Z".to_string(),
        updated_at: "2024-01-02T00:00:00Z".to_string(),
    }
}

#[test]
fn client_text_round_trips() {
    let c = sample_client();
    let text = client_to_json(&c);
    let back = parse_client_text(&text).unwrap();
    assert_eq!(back.id, c.id);
    assert_eq!(back.name, c.name);
    assert_eq!(back.email, c.email);
    assert_eq!(back.contact, c.contact);
    assert_eq!(back.profile_image, c.profile_image);
    assert_eq!(back.notes, c.notes);
    assert_eq!(back.created_at, c.created_at);
    assert_eq!(back.updated_at, c.updated_at);
}

#[test]
fn written_client_text_is_json_serde_agrees() {
    let c = sample_client();
    let text = client_to_json(&c);
    let v: serde_json::Value = serde_json::from_str(&text).unwrap();
    assert_eq!(v.get("id").and_then(|x| x.as_str()), Some("c1"));
    assert_eq!(v.get("name").and_then(|x| x.as_str()), Some("Alice"));
    assert!(v.get("profile_image").unwrap().is_null());
    assert_eq!(
        v.get("notes").and_then(|x| x.as_str()),
        Some("first \"note\"\nwith lines")
    );
}

#[test]
fn written_commission_text_is_json_serde_agrees() {
    let m = Commission {
        id: "ord1".to_string(),
        client_id: "c1".to_string(),
        client_name: "Bob".to_string(),
        title: "Portrait".to_string(),
        description: "ink & paper".to_string(),
        price_cents: 500,
        payment_status: "Half Paid".to_string(),
        status: "pending".to_string(),
        created_at: "2024-01-01T00:00:00Z".to_string(),
        updated_at: "2024-01-01T00:00:00Z".to_string(),
        images: vec!["images/ord1_a.jpg".to_string(), "images/ord1_b.png".to_string()],
    };
    let text = commission_to_json(&m);
    let v: serde_json::Value = serde_json::from_str(&text).unwrap();
    assert_eq!(v.get("price_cents").and_then(|x| x.as_i64()), Some(500));
    assert_eq!(v.get("payment_status").and_then(|x| x.as_str()), Some("Half Paid"));
    let imgs = v.get("images").and_then(|x| x.as_array()).unwrap();
    assert_eq!(imgs.len(), 2);
    assert_eq!(imgs[0].as_str(), Some("images/ord1_a.jpg"));
    let back = parse_commission_text(&text).unwrap();
    assert_eq!(back.price_cents, 500);
    assert_eq!(back.images, m.images);
}

#[test]
fn serde_written_pretty_text_reads_back() {
    // What an earlier writer would have produced: pretty-printed, with
    // escaped control characters and a null.
    let text = "{\n  \"id\": \"c9\",\n  \"name\": \"N\\u0001ame\",\n  \"email\": \"e\",\n  \"contact\": \"\",\n  \"profile_image\": null,\n  \"notes\": \"a\\tb\\r\\n\",\n  \"created_at\": \"t1\",\n  \"updated_at\": \"t2\"\n}";
    let c = parse_client_text(text).unwrap();
    assert_eq!(c.id, "c9");
    assert_eq!(c.name, "N\u{1}ame");
    assert_eq!(c.notes, Some("a\tb\r\n".to_string()));
    assert_eq!(c.profile_image, None);
}

#[test]
fn client_parse_requires_the_string_fields() {
    assert!(parse_client_text("{}").is_err());
    assert!(parse_client_text("not json").is_err());
    assert!(parse_client_text(
        "{\"id\": \"c1\", \"name\": 7, \"email\": \"\", \"contact\": \"\", \"created_at\": \"t\", \"updated_at\": \"t\"}"
    )
    .is_err());
}

#[test]
fn unknown_members_are_tolerated() {
    let text = "{\"legacy_flag\": true, \"id\": \"m1\", \"price_cents\": 250, \"extra\": [1, 2]}";
    let m = parse_commission_text(text).unwrap();
    assert_eq!(m.id, "m1");
    assert_eq!(m.price_cents, 250);
}

#[test]
fn price_cents_member_wins_over_legacy_price() {
    let text = "{\"id\": \"m1\", \"price_cents\": 250, \"price\": 99.99}";
    let m = parse_commission_text(text).unwrap();
    assert_eq!(m.price_cents, 250);
    let text2 = "{\"id\": \"m1\", \"price_cents\": \"oops\", \"price\": 99.99}";
    let m2 = parse_commission_text(text2).unwrap();
    assert_eq!(m2.price_cents, 9999);
}

#[test]
fn integer_rendering_round_trips() {
    for n in [0i64, 7, 10, 1234, -1, -1234, i64::MAX, i64::MIN] {
        let text = i64_to_string(n);
        assert_eq!(text, n.to_string());
        assert_eq!(parse_int_lexeme(&text), Some(n));
    }
    assert_eq!(parse_int_lexeme(""), None);
    assert_eq!(parse_int_lexeme("-"), None);
    assert_eq!(parse_int_lexeme("12a"), None);
    assert_eq!(parse_int_lexeme("9223372036854775808"), None);
    assert_eq!(parse_int_lexeme("-9223372036854775808"), Some(i64::MIN));
}

#[test]
fn decimal_dollars_convert_exactly() {
    assert_eq!(dec_lexeme_to_cents("12.34"), Some(1234));
    assert_eq!(dec_lexeme_to_cents("12"), Some(1200));
    assert_eq!(dec_lexeme_to_cents("0.125"), Some(13));
    assert_eq!(dec_lexeme_to_cents("0.124"), Some(12));
    assert_eq!(dec_lexeme_to_cents("-0.125"), Some(-13));
    assert_eq!(dec_lexeme_to_cents("0.1250001"), Some(13));
    assert_eq!(dec_lexeme_to_cents("0.1"), Some(10));
    assert_eq!(dec_lexeme_to_cents(""), None);
    assert_eq!(dec_lexeme_to_cents("."), None);
    assert_eq!(dec_lexeme_to_cents("1."), None);
    assert_eq!(dec_lexeme_to_cents(".5"), None);
    assert_eq!(dec_lexeme_to_cents("1e3"), None);
}

#[test]
fn object_reader_handles_the_flat_grammar() {
    let text = "{ \"a\" : \"x\" , \"b\" : [ \"p\" , \"q\" ] , \"c\" : null , \"d\" : true }";
    let o = parse_obj_text(text).unwrap();
    assert_eq!(o.members.len(), 4);
    assert!(matches!(&o.members[0].val, JsonVal::Scalar(JsonScalar::Str(s)) if s == "x"));
    assert!(matches!(&o.members[1].val, JsonVal::Arr(a) if a.len() == 2));
    assert!(matches!(&o.members[2].val, JsonVal::Scalar(JsonScalar::Null)));
    assert!(matches!(&o.members[3].val, JsonVal::Scalar(JsonScalar::Bool(true))));
    // And what it writes, it reads.
    let text2 = obj_to_text(&o);
    let o2 = parse_obj_text(&text2).unwrap();
    assert_eq!(o2.members.len(), 4);
    assert!(parse_obj_text("{\"a\": {\"nested\": 1}}").is_none());
    assert!(parse_obj_text("{\"a\": 1} trailing").is_none());
    assert!(parse_obj_text("[1, 2]").is_none());
}
