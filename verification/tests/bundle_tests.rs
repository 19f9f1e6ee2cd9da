use global_secrets_manager::bundle::{bind_members, parse_payload, Entry, FetchError, FieldValue};
use global_secrets_manager::payload::{Member, PayloadValue};
use global_secrets_manager::schema::{Field, FieldType, Schema};

fn two_keys() -> Schema {
    Schema::declare(
        "SampleSecrets",
        vec![Field::new("key1", FieldType::Text), Field::new("key2", FieldType::Text)],
    )
    .unwrap()
}

fn endpoint() -> Schema {
    Schema::declare(
        "Endpoint",
        vec![
            Field::new("host", FieldType::Text),
            Field::new("port", FieldType::Integer),
            Field::new("tls", FieldType::Flag),
        ],
    )
    .unwrap()
}

fn text(s: &str) -> FieldValue {
    FieldValue::Text(s.to_string())
}

fn parse_error(field: &str) -> FetchError {
    FetchError::ParseError { field: field.to_string() }
}

fn member(name: &str, value: PayloadValue) -> Member {
    Member { name: name.to_string(), value }
}

#[test]
fn schema_fidelity() {
    let bundle = parse_payload(&two_keys(), br#"{"key1":"value1","key2":"value2"}"#).unwrap();
    assert_eq!(bundle.get("key1"), Some(&text("value1")));
    assert_eq!(bundle.get("key2"), Some(&text("value2")));
    assert_eq!(bundle.len(), 2);
}

#[test]
fn missing_field() {
    assert_eq!(parse_payload(&two_keys(), br#"{"key1":"value1"}"#), Err(parse_error("key2")));
}

#[test]
fn entries_follow_the_declaration_not_the_payload() {
    let bundle = parse_payload(&two_keys(), br#"{"key2":"b","key1":"a"}"#).unwrap();
    assert_eq!(
        bundle.entries(),
        &vec![
            Entry { name: "key1".to_string(), value: text("a") },
            Entry { name: "key2".to_string(), value: text("b") },
        ]
    );
}

#[test]
fn extra_payload_keys_are_ignored() {
    let with_extra =
        parse_payload(&two_keys(), br#"{"key0":1,"key1":"a","key2":"b","zzz":[true]}"#).unwrap();
    let without = parse_payload(&two_keys(), br#"{"key1":"a","key2":"b"}"#).unwrap();
    assert_eq!(with_extra, without);
    assert_eq!(with_extra.get("key0"), None);
    assert_eq!(with_extra.get("zzz"), None);
}

#[test]
fn empty_object_misses_the_first_field() {
    assert_eq!(parse_payload(&two_keys(), b"{}"), Err(parse_error("key1")));
}

#[test]
fn the_first_declared_offender_is_named() {
    assert_eq!(parse_payload(&two_keys(), br#"{"key2":7}"#), Err(parse_error("key1")));
    assert_eq!(parse_payload(&two_keys(), br#"{"key2":7,"key1":"a"}"#), Err(parse_error("key2")));
    assert_eq!(parse_payload(&two_keys(), br#"{"key1":null,"key2":7}"#), Err(parse_error("key1")));
}

#[test]
fn a_value_of_another_type_is_a_parse_error() {
    for raw in [
        &br#"{"key1":1,"key2":"b"}"#[..],
        br#"{"key1":true,"key2":"b"}"#,
        br#"{"key1":null,"key2":"b"}"#,
        br#"{"key1":["a"],"key2":"b"}"#,
        br#"{"key1":{"a":"b"},"key2":"b"}"#,
        br#"{"key1":1.5,"key2":"b"}"#,
    ] {
        assert_eq!(parse_payload(&two_keys(), raw), Err(parse_error("key1")));
    }
}

#[test]
fn typed_fields_are_read_by_their_type() {
    let bundle =
        parse_payload(&endpoint(), br#"{"host":"db.internal","port":5432,"tls":true}"#).unwrap();
    assert_eq!(bundle.get("host"), Some(&text("db.internal")));
    assert_eq!(bundle.get("port"), Some(&FieldValue::Integer(5432)));
    assert_eq!(bundle.get("tls"), Some(&FieldValue::Flag(true)));
}

#[test]
fn integer_fields_take_the_whole_range_of_i64() {
    let schema = Schema::declare("N", vec![Field::new("n", FieldType::Integer)]).unwrap();
    let read = |raw: &[u8]| parse_payload(&schema, raw).map(|b| b.get("n").cloned());
    assert_eq!(read(br#"{"n":0}"#), Ok(Some(FieldValue::Integer(0))));
    assert_eq!(read(br#"{"n":-1}"#), Ok(Some(FieldValue::Integer(-1))));
    assert_eq!(
        read(br#"{"n":9223372036854775807}"#),
        Ok(Some(FieldValue::Integer(i64::MAX)))
    );
    assert_eq!(
        read(br#"{"n":-9223372036854775808}"#),
        Ok(Some(FieldValue::Integer(i64::MIN)))
    );
    assert_eq!(read(br#"{"n":9223372036854775808}"#), Err(parse_error("n")));
    assert_eq!(read(br#"{"n":18446744073709551615}"#), Err(parse_error("n")));
    assert_eq!(read(br#"{"n":1.0}"#), Err(parse_error("n")));
    assert_eq!(read(br#"{"n":"1"}"#), Err(parse_error("n")));
}

#[test]
fn flag_fields_take_only_booleans() {
    let schema = Schema::declare("F", vec![Field::new("f", FieldType::Flag)]).unwrap();
    let read = |raw: &[u8]| parse_payload(&schema, raw).map(|b| b.get("f").cloned());
    assert_eq!(read(br#"{"f":false}"#), Ok(Some(FieldValue::Flag(false))));
    assert_eq!(read(br#"{"f":0}"#), Err(parse_error("f")));
    assert_eq!(read(br#"{"f":"true"}"#), Err(parse_error("f")));
}

#[test]
fn a_payload_that_is_no_object_is_malformed() {
    for raw in [
        &b""[..],
        b"   ",
        b"not json",
        b"null",
        b"\"key1\"",
        b"17",
        br#"["value1","value2"]"#,
        br#"{"key1":"value1","key2":"value2""#,
        br#"{"key1":"value1","key2":"value2"} x"#,
        br#"{"key1":"value1",}"#,
        br#"{key1:"value1"}"#,
        b"{\"key1\":\"\xff\"}",
    ] {
        assert_eq!(parse_payload(&two_keys(), raw), Err(FetchError::MalformedPayload));
    }
}

#[test]
fn whitespace_around_the_object_is_accepted() {
    let bundle =
        parse_payload(&two_keys(), b" \n{ \"key1\" : \"a\" ,\t\"key2\" : \"b\" }\r\n").unwrap();
    assert_eq!(bundle.get("key1"), Some(&text("a")));
}

#[test]
fn string_escapes_are_decoded() {
    let bundle =
        parse_payload(&two_keys(), r#"{"key1":"a\"b\\c\n","key2":"é😀"}"#.as_bytes()).unwrap();
    assert_eq!(bundle.get("key1"), Some(&text("a\"b\\c\n")));
    assert_eq!(bundle.get("key2"), Some(&text("é😀")));
}

#[test]
fn a_key_given_twice_counts_once() {
    let bundle = parse_payload(&two_keys(), br#"{"key1":"a","key1":"z","key2":"b"}"#).unwrap();
    assert_eq!(bundle.get("key1"), Some(&text("z")));
    assert_eq!(bundle.len(), 2);
}

#[test]
fn member_names_are_case_sensitive() {
    assert_eq!(
        parse_payload(&two_keys(), br#"{"Key1":"a","key2":"b"}"#),
        Err(parse_error("key1"))
    );
}

#[test]
fn bind_members_reads_the_first_member_of_a_name() {
    let members = vec![
        member("key2", PayloadValue::Text("b".to_string())),
        member("key1", PayloadValue::Text("first".to_string())),
        member("key1", PayloadValue::Flag(true)),
    ];
    let bundle = bind_members(&two_keys(), &members).unwrap();
    assert_eq!(bundle.get("key1"), Some(&text("first")));
    assert_eq!(bundle.get("key2"), Some(&text("b")));
}

#[test]
fn bind_members_does_not_look_past_a_mismatch() {
    let members = vec![
        member("key1", PayloadValue::Null),
        member("key1", PayloadValue::Text("late".to_string())),
        member("key2", PayloadValue::Text("b".to_string())),
    ];
    assert_eq!(bind_members(&two_keys(), &members), Err(parse_error("key1")));
}

#[test]
fn bind_members_reads_each_value_by_the_declared_type() {
    let schema = endpoint();
    let good = vec![
        member("host", PayloadValue::Text("h".to_string())),
        member("port", PayloadValue::Number(Some(-7))),
        member("tls", PayloadValue::Flag(false)),
    ];
    assert_eq!(
        bind_members(&schema, &good).unwrap().entries(),
        &vec![
            Entry { name: "host".to_string(), value: text("h") },
            Entry { name: "port".to_string(), value: FieldValue::Integer(-7) },
            Entry { name: "tls".to_string(), value: FieldValue::Flag(false) },
        ]
    );
    let mut no_integer = good.clone();
    no_integer[1] = member("port", PayloadValue::Number(None));
    assert_eq!(bind_members(&schema, &no_integer), Err(parse_error("port")));
    for other in [PayloadValue::List, PayloadValue::Object, PayloadValue::Null] {
        let mut bad = good.clone();
        bad[2] = member("tls", other);
        assert_eq!(bind_members(&schema, &bad), Err(parse_error("tls")));
    }
}

#[test]
fn bind_members_with_no_members_misses_the_first_field() {
    assert_eq!(bind_members(&two_keys(), &vec![]), Err(parse_error("key1")));
}

#[test]
fn get_of_an_undeclared_name_is_none() {
    let bundle = parse_payload(&two_keys(), br#"{"key1":"a","key2":"b"}"#).unwrap();
    assert_eq!(bundle.get("key3"), None);
    assert_eq!(bundle.get(""), None);
    assert_eq!(bundle.get("KEY1"), None);
}

#[test]
fn typed_getters_read_fields_of_their_type() {
    let bundle =
        parse_payload(&endpoint(), br#"{"host":"db.internal","port":5432,"tls":true}"#).unwrap();
    assert_eq!(bundle.text("host"), Some("db.internal"));
    assert_eq!(bundle.integer("port"), Some(5432));
    assert_eq!(bundle.flag("tls"), Some(true));
}

#[test]
fn typed_getters_refuse_fields_of_another_type() {
    let bundle =
        parse_payload(&endpoint(), br#"{"host":"db.internal","port":5432,"tls":true}"#).unwrap();
    assert_eq!(bundle.text("port"), None);
    assert_eq!(bundle.text("tls"), None);
    assert_eq!(bundle.integer("host"), None);
    assert_eq!(bundle.integer("tls"), None);
    assert_eq!(bundle.flag("host"), None);
    assert_eq!(bundle.flag("port"), None);
    assert_eq!(bundle.text("missing"), None);
    assert_eq!(bundle.integer("missing"), None);
    assert_eq!(bundle.flag("missing"), None);
}

#[test]
fn a_value_knows_its_type() {
    assert_eq!(text("a").kind(), FieldType::Text);
    assert_eq!(FieldValue::Flag(false).kind(), FieldType::Flag);
    assert_eq!(FieldValue::Integer(0).kind(), FieldType::Integer);
}

#[test]
fn every_entry_has_the_declared_name_and_type() {
    let schema = endpoint();
    let bundle = parse_payload(&schema, br#"{"tls":false,"port":1,"host":""}"#).unwrap();
    assert_eq!(bundle.len(), schema.fields().len());
    for (entry, field) in bundle.entries().iter().zip(schema.fields()) {
        assert_eq!(entry.name, field.name);
        assert_eq!(entry.value.kind(), field.kind);
    }
}
