use serde_json_schema::json::JsonValue;
use serde_json_schema::Schema;

/// validating the basic boolean and empty schemas
#[test]
fn basics_basics() {
    let json_42 = JsonValue::parse("42").unwrap();
    let json_string = JsonValue::parse("\"I'm a string\"").unwrap();
    let json_object = JsonValue::parse(
        r#"{ "an": [ "arbitrarily", "nested" ], "data": "structure" }"#,
    )
    .unwrap();

    let empty_schema = Schema::parse("{}").unwrap();
    empty_schema.validate(&json_42).unwrap();
    empty_schema.validate(&json_string).unwrap();
    empty_schema.validate(&json_object).unwrap();

    let true_schema = Schema::parse("true").unwrap();
    true_schema.validate(&json_42).unwrap();
    true_schema.validate(&json_string).unwrap();
    true_schema.validate(&json_object).unwrap();

    let false_schema = Schema::parse("false").unwrap();
    assert!(false_schema.validate(&json_42).is_err());
    assert!(false_schema.validate(&json_string).is_err());
    assert!(false_schema.validate(&json_object).is_err());
}
