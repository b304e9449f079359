use serde_json_schema::json::JsonValue;
use serde_json_schema::Schema;

#[test]
fn numbers_number_spec() {
    let raw_schema: &str = r#"{
    "$schema": "http://json-schema.org/draft-07/schema#",
    "title": "Product",
    "description": "A product from Acme's catalog",
    "type": "number"
    }"#;

    let schema = Schema::parse(raw_schema).unwrap();
    println!("{:#?}", schema);

    schema.validate(&JsonValue::parse("-4.1416").unwrap()).unwrap();
    schema.validate(&JsonValue::parse("4.1416").unwrap()).unwrap();
}

#[test]
#[should_panic]
fn numbers_number_spec_negative() {
    let raw_schema: &str = r#"{
    "$schema": "http://json-schema.org/draft-07/schema#",
    "title": "Product",
    "description": "A product from Acme's catalog",
    "type": "number"
    }"#;

    let schema = Schema::parse(raw_schema).unwrap();
    println!("{:#?}", schema);

    schema.validate(&JsonValue::parse("\"4.1416\"").unwrap()).unwrap();
}

#[test]
fn numbers_number_types() {
    let raw_schema: &str = r#"{
    "$schema": "http://json-schema.org/draft-07/schema#",
    "$id": "http://example.com/product.schema.json",
    "title": "Product",
    "description": "A product from Acme's catalog",
    "type": "object",
    "properties": {
        "integer": {
        "description": "integer",
        "type": "integer"
        },
        "number": {
        "description": "number",
        "type": "number"
        }
    }
    }"#;

    let schema = Schema::parse(raw_schema).unwrap();
    println!("{:#?}", schema);

    schema.validate(&JsonValue::parse(r#"{ "integer": -42 }"#).unwrap()).unwrap();
    schema.validate(&JsonValue::parse(r#"{ "integer": 42 }"#).unwrap()).unwrap();
    schema.validate(&JsonValue::parse(r#"{ "number": -4.1416 }"#).unwrap()).unwrap();
    schema.validate(&JsonValue::parse(r#"{ "number": 4.1416 }"#).unwrap()).unwrap();
}
