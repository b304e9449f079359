use serde_json_schema::Schema;

/// a `$schema` value must be an absolute URL
#[test]
#[should_panic]
fn spec_schema_must_be_a_url() {
    let raw_schema = r#"{
    "$schema": "not a uri",
    "description": "A product from Acme's catalog",
    "type": "object",
    "properties": {
        "productId": {
        "description": "The unique identifier for a product",
        "type": "integer"
        }
    },
    "required": [ "productId" ]
    }"#;
    Schema::parse(raw_schema).unwrap();
}

/// a `$id` value must fit one of the identifier shapes
#[test]
#[should_panic]
fn id_must_be_a_url() {
    let raw_schema = r#"{
    "$schema": "http://json-schema.org/draft-07/schema#",
    "$id": "not a uri",
    "description": "A product from Acme's catalog",
    "type": "object",
    "properties": {
        "productId": {
        "description": "The unique identifier for a product",
        "type": "integer"
        }
    },
    "required": [ "productId" ]
    }"#;
    Schema::parse(raw_schema).unwrap();
}

#[test]
fn spec_id_is_optional() {
    let raw_schema = r#"{
    "$schema": "http://json-schema.org/draft-07/schema#",
    "description": "A product from Acme's catalog",
    "type": "object",
    "properties": {
        "productId": {
        "description": "The unique identifier for a product",
        "type": "integer"
        }
    },
    "required": [ "productId" ]
    }"#;

    let schema = Schema::parse(raw_schema).unwrap();
    println!("{:#?}", schema);
    assert!(schema.id().is_none());
}

#[test]
fn spec_subschema() {
    let raw_schema = r##"{
        "$id": "http://example.com/root.json",
        "definitions": {
            "A": { "$id": "#foo" },
            "B": {
                "$id": "other.json",
                "definitions": {
                    "X": { "$id": "#bar" },
                    "Y": { "$id": "t/inner.json" }
                }
            },
            "C": {
                "$id": "urn:uuid:ee564b8a-7a87-4125-8c96-e9f123d6766f"
            }
        }
    }"##;

    let schema = Schema::parse(raw_schema).unwrap();
    println!("{:#?}", schema);
}

#[test]
fn spec_subschema_no_ids() {
    let raw_schema = r##"{
        "definitions": {
            "A": {},
            "B": {
                "definitions": {
                }
            },
            "C": {
            }
        }
    }"##;

    let schema = Schema::parse(raw_schema).unwrap();
    println!("{:#?}", schema);
}
