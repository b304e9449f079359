use serde_json_schema::error::ErrorKind;
use serde_json_schema::id::SchemaId;
use serde_json_schema::json::{JsonNumber, JsonValue};
use serde_json_schema::property::{PropertyInstance, RefProperty};
use serde_json_schema::validation::ValidationError;
use serde_json_schema::Schema;

fn messages_of(errors: &Vec<ValidationError>) -> Vec<String> {
    serde_json_schema::validation::messages(errors)
}

/// schema `{"type":"integer"}` rejects `1.2` with one exact message
#[test]
fn integer_rejects_fraction() {
    let schema = Schema::parse(r#"{"type":"integer"}"#).unwrap();
    let errors = schema.validate(&JsonValue::parse("1.2").unwrap()).unwrap_err();
    assert_eq!(
        messages_of(&errors),
        vec![String::from("expected integer found Number(1.2)")]
    );
    schema.validate(&JsonValue::parse("7").unwrap()).unwrap();
    schema.validate(&JsonValue::parse("-7").unwrap()).unwrap();
    schema.validate(&JsonValue::parse("18446744073709551615").unwrap()).unwrap();
    assert!(schema.validate(&JsonValue::parse("7.5").unwrap()).is_err());
}

/// a required key absent from the input is reported by name
#[test]
fn missing_required_named() {
    let schema = Schema::parse(
        r#"{"type":"object","properties":{"productId":{"type":"integer"}},"required":["productId"]}"#,
    )
    .unwrap();
    let errors = schema.validate(&JsonValue::parse("{}").unwrap()).unwrap_err();
    assert_eq!(
        messages_of(&errors),
        vec![String::from(r#"object doesn't contain the required property "productId""#)]
    );
    schema.validate(&JsonValue::parse(r#"{"productId": 3}"#).unwrap()).unwrap();
}

/// undeclared keys in the input are ignored
#[test]
fn undeclared_keys_ignored() {
    let schema = Schema::parse(
        r#"{"type":"object","properties":{"name":{"type":"string"}}}"#,
    )
    .unwrap();
    schema
        .validate(&JsonValue::parse(r#"{"name":"a","unknown":[1,2,{}]}"#).unwrap())
        .unwrap();
}

/// `$id` shapes: fragment, URL, pointer, path; a space fits none
#[test]
fn id_shapes() {
    match SchemaId::parse("#foo").unwrap() {
        SchemaId::Fragment(f) => assert_eq!(f.0, String::from("foo")),
        other => panic!("wrong shape: {:?}", other),
    }
    match SchemaId::parse("urn:uuid:ee564b8a-7a87-4125-8c96-e9f123d6766f").unwrap() {
        SchemaId::Url(_) => {}
        other => panic!("wrong shape: {:?}", other),
    }
    match SchemaId::parse("/foo/bar").unwrap() {
        SchemaId::Pointer(p) => assert_eq!(p, String::from("/foo/bar")),
        other => panic!("wrong shape: {:?}", other),
    }
    match SchemaId::parse("t/inner.json").unwrap() {
        SchemaId::Path(p) => assert_eq!(p.0, String::from("t/inner.json")),
        other => panic!("wrong shape: {:?}", other),
    }
    // a broken pointer escape, without whitespace, still passes as a path
    match SchemaId::parse("foo~bar").unwrap() {
        SchemaId::Path(_) => {}
        other => panic!("wrong shape: {:?}", other),
    }
    let err = SchemaId::parse("not a uri").unwrap_err();
    assert_eq!(err.kind(), ErrorKind::InvalidIdentifier);
}

/// URL identifiers are kept normalized, not verbatim
#[test]
fn id_url_normalized() {
    match SchemaId::parse("HTTP://EXAMPLE.COM").unwrap() {
        SchemaId::Url(u) => assert_eq!(u, String::from("http://example.com/")),
        other => panic!("wrong shape: {:?}", other),
    }
    let id = SchemaId::parse("#foo").unwrap();
    assert_eq!(id.to_string(), String::from("#foo"));
}

/// the first path segment of the dialect URL is the draft name
#[test]
fn draft_version_segment() {
    let schema = Schema::parse(
        r#"{"$schema": "http://json-schema.org/draft-07/schema#"}"#,
    )
    .unwrap();
    assert_eq!(schema.draft_version(), Some(String::from("draft-07")));
}

/// a `$ref` path into nested properties resolves to the nested node
#[test]
fn ref_resolves_nested_street() {
    let schema = Schema::parse(
        r#"{
        "type": "object",
        "properties": {
            "address": {
                "type": "object",
                "properties": {
                    "street": { "type": "string" }
                }
            }
        }
    }"#,
    )
    .unwrap();
    let reference = RefProperty {
        reference: String::from("#/properties/address/properties/street"),
    };
    match reference.deref(&schema).unwrap() {
        PropertyInstance::String => {}
        other => panic!("wrong node: {:?}", other),
    }
    let missing = RefProperty { reference: String::from("#/properties/nowhere") };
    assert!(missing.deref(&schema).is_none());
    let external = RefProperty { reference: String::from("http://example.com/other") };
    assert!(external.deref(&schema).is_none());
}

/// a `$ref` reached while validating is resolved first
#[test]
fn ref_validates_through_resolution() {
    let schema = Schema::parse(
        r##"{
        "type": "object",
        "properties": {
            "street": { "type": "string" },
            "home": { "$ref": "#/properties/street" }
        }
    }"##,
    )
    .unwrap();
    schema.validate(&JsonValue::parse(r#"{"home": "Elm Street"}"#).unwrap()).unwrap();
    let errors = schema
        .validate(&JsonValue::parse(r#"{"home": 5}"#).unwrap())
        .unwrap_err();
    assert_eq!(
        messages_of(&errors),
        vec![String::from("expected string found Number(5)")]
    );
}

/// a reference that resolves to nothing is reported as unresolved
#[test]
fn unresolved_ref_reported() {
    let schema = Schema::parse(
        r##"{
        "type": "object",
        "properties": {
            "home": { "$ref": "#/properties/street" }
        }
    }"##,
    )
    .unwrap();
    let errors = schema
        .validate(&JsonValue::parse(r#"{"home": "x"}"#).unwrap())
        .unwrap_err();
    assert_eq!(
        messages_of(&errors),
        vec![String::from(r##"unresolved reference "#/properties/street""##)]
    );
}

/// a `$ref` at the schema root is not supported by validation
#[test]
fn root_ref_unsupported() {
    let schema = Schema::parse(r##"{"$ref": "#/definitions/x"}"##).unwrap();
    let errors = schema.validate(&JsonValue::parse("1").unwrap()).unwrap_err();
    assert_eq!(errors, vec![ValidationError::UnsupportedRef]);
}

/// the false schema rejects with its one exact message
#[test]
fn false_schema_message() {
    let schema = Schema::parse("false").unwrap();
    let errors = schema.validate(&JsonValue::parse("null").unwrap()).unwrap_err();
    assert_eq!(errors.len(), 1);
    assert_eq!(
        errors[0].message(),
        String::from(r#""the scheme "false" will never validate"#)
    );
}

/// each parse failure carries its kind
#[test]
fn parse_error_kinds() {
    assert_eq!(Schema::parse("{}{}").unwrap_err().kind(), ErrorKind::MalformedJson);
    assert_eq!(Schema::parse("42").unwrap_err().kind(), ErrorKind::InvalidShape);
    assert_eq!(
        Schema::parse(r#"{"type":"fancy"}"#).unwrap_err().kind(),
        ErrorKind::InvalidShape
    );
    assert_eq!(
        Schema::parse(r#"{"description": 5}"#).unwrap_err().kind(),
        ErrorKind::InvalidShape
    );
    assert_eq!(
        Schema::parse(r#"{"$id": "not a uri"}"#).unwrap_err().kind(),
        ErrorKind::InvalidIdentifier
    );
    assert_eq!(
        Schema::parse(r#"{"$schema": "not a uri"}"#).unwrap_err().kind(),
        ErrorKind::InvalidIdentifier
    );
}

/// serializing a parsed schema and parsing it back gives an equal value
#[test]
fn round_trip_parsed_schemas() {
    let texts = [
        "true",
        "false",
        "{}",
        r#"{"type":"integer","exclusiveMinimum":3}"#,
        r##"{"$id":"#frag","$schema":"http://json-schema.org/draft-07/schema#","description":"d"}"##,
        r##"{
            "$id": "https://example.com/thing.schema.json",
            "type": "object",
            "properties": {
                "a": { "type": "array", "items": { "type": "number" } },
                "b": { "$ref": "#/properties/a" }
            },
            "required": ["a"],
            "dependencies": { "a": ["b"] },
            "definitions": { "inner": { "type": "string" } }
        }"##,
    ];
    for text in texts {
        let schema = Schema::parse(text).unwrap();
        let value = schema.to_value();
        let again = Schema::from_value(value).unwrap();
        assert_eq!(schema, again);
    }
}

/// exact decoded forms of JSON numbers
#[test]
fn number_forms() {
    assert_eq!(
        JsonValue::parse("42"),
        Some(JsonValue::Number(JsonNumber::Int(42)))
    );
    assert_eq!(
        JsonValue::parse("-7"),
        Some(JsonValue::Number(JsonNumber::Int(-7)))
    );
    assert_eq!(
        JsonValue::parse("1.5"),
        Some(JsonValue::Number(JsonNumber::Dec(String::from("1.5"))))
    );
    assert_eq!(
        JsonValue::parse("18446744073709551615"),
        Some(JsonValue::Number(JsonNumber::UInt(18446744073709551615)))
    );
    assert_eq!(JsonValue::parse("not json"), None);
}

/// mismatch messages render the found value like the decoder saw it
#[test]
fn mismatch_message_rendering() {
    let schema = Schema::parse(r#"{"type":"string"}"#).unwrap();
    let check = |input: &str, expected: &str| {
        let errors = schema.validate(&JsonValue::parse(input).unwrap()).unwrap_err();
        assert_eq!(messages_of(&errors), vec![String::from(expected)]);
    };
    check("null", "expected string found Null");
    check("true", "expected string found Bool(true)");
    check("-42", "expected string found Number(-42)");
    check(r#"[1, "a"]"#, r#"expected string found Array [Number(1), String("a")]"#);
    check(r#"{"k": 1}"#, r#"expected string found Object {"k": Number(1)}"#);

    let object_schema = Schema::parse(
        r#"{"type":"object","properties":{}}"#,
    )
    .unwrap();
    let errors = object_schema.validate(&JsonValue::parse("3").unwrap()).unwrap_err();
    assert_eq!(messages_of(&errors), vec![String::from("invalid object")]);
}

/// array validation checks every element and accumulates all mismatches
#[test]
fn array_accumulates_errors() {
    let schema = Schema::parse(r#"{"type":"array","items":{"type":"string"}}"#).unwrap();
    let errors = schema
        .validate(&JsonValue::parse(r#"[1, "ok", 2.5]"#).unwrap())
        .unwrap_err();
    assert_eq!(
        messages_of(&errors),
        vec![
            String::from("expected string found Number(1)"),
            String::from("expected string found Number(2.5)"),
        ]
    );
    schema.validate(&JsonValue::parse("[]").unwrap()).unwrap();
}

/// boolean nodes accept booleans and reject the rest
#[test]
fn boolean_node() {
    let schema = Schema::parse(r#"{"type":"boolean"}"#).unwrap();
    schema.validate(&JsonValue::parse("true").unwrap()).unwrap();
    schema.validate(&JsonValue::parse("false").unwrap()).unwrap();
    let errors = schema.validate(&JsonValue::parse("5").unwrap()).unwrap_err();
    assert_eq!(messages_of(&errors), vec![String::from("expected boolean found Number(5)")]);
}

/// the shape accessors expose the root node by its variant
#[test]
fn root_shape_accessors() {
    let integer = Schema::parse(r#"{"type":"integer"}"#).unwrap();
    assert!(integer.as_integer().is_some());
    assert!(integer.as_object().is_none());
    assert!(integer.specification().is_none());

    let object = Schema::parse(r#"{"type":"object","properties":{"a":{"type":"null"}}}"#)
        .unwrap();
    assert!(object.as_object().is_some());
    assert!(object.specification().is_some());
    assert!(object.properties().is_some());
    assert!(object.required_properties().is_none());

    let array = Schema::parse(r#"{"type":"array","items":{"type":"null"}}"#).unwrap();
    assert!(array.as_array().is_some());
    let null = Schema::parse(r#"{"type":"null"}"#).unwrap();
    assert!(null.as_null().is_some());
    let number = Schema::parse(r#"{"type":"number"}"#).unwrap();
    assert!(number.as_number().is_some());
    let boolean = Schema::parse(r#"{"type":"boolean"}"#).unwrap();
    assert!(boolean.as_boolean().is_some());
}

/// a node validates on its own, without a document around it
#[test]
fn node_validates_alone() {
    let schema = Schema::parse(r#"{"type":"integer"}"#).unwrap();
    let node = schema.as_integer().unwrap();
    node.validate(&JsonValue::parse("5").unwrap()).unwrap();
    let errors = node.validate(&JsonValue::parse("1.2").unwrap()).unwrap_err();
    assert_eq!(
        messages_of(&errors),
        vec![String::from("expected integer found Number(1.2)")]
    );
}

/// a chain of references resolves to the node at its end
#[test]
fn chained_refs_resolve() {
    let schema = Schema::parse(
        r##"{
        "type": "object",
        "properties": {
            "a": { "type": "string" },
            "b": { "$ref": "#/properties/a" }
        }
    }"##,
    )
    .unwrap();
    let reference = RefProperty { reference: String::from("#/properties/b") };
    match reference.deref(&schema).unwrap() {
        PropertyInstance::String => {}
        other => panic!("wrong node: {:?}", other),
    }
}

/// accessors read back the identifying fields
#[test]
fn identifying_fields() {
    let schema = Schema::parse(
        r##"{
        "$id": "#frag",
        "$schema": "http://json-schema.org/draft-07/schema#",
        "description": "a thing"
    }"##,
    )
    .unwrap();
    assert_eq!(schema.id().unwrap().to_string(), String::from("#frag"));
    assert_eq!(
        schema.schema().unwrap(),
        &String::from("http://json-schema.org/draft-07/schema#")
    );
    assert_eq!(schema.description().unwrap(), "a thing");
}
