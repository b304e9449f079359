use serde_json_schema::json::JsonValue;
use serde_json_schema::Schema;

const ADDRESS_SCHEMA: &str = r#"{
  "$id": "https://example.com/address.schema.json",
  "$schema": "http://json-schema.org/draft-07/schema#",
  "description": "An address similar to http://microformats.org/wiki/h-card",
  "type": "object",
  "properties": {
    "post-office-box": { "type": "string" },
    "extended-address": { "type": "string" },
    "street-address": { "type": "string" },
    "locality": { "type": "string" },
    "region": { "type": "string" },
    "country-name": { "type": "string" },
    "postal-code": { "type": "string" }
  },
  "required": [ "locality", "region", "country-name" ],
  "dependencies": {
    "post-office-box": [ "street-address" ],
    "extended-address": [ "street-address" ]
  }
}"#;

const ADDRESS: &str = r#"{
  "post-office-box": "123",
  "street-address": "456 Main St",
  "locality": "Cityville",
  "region": "Stateland",
  "country-name": "Countryland",
  "postal-code": "12345"
}"#;

const ADDRESS_WRONG_TYPE: &str = r#"{
  "locality": 42,
  "region": "Stateland",
  "country-name": "Countryland"
}"#;

const ADDRESS_MISSING: &str = r#"{
  "region": "Stateland"
}"#;

const ADDRESS_MISSING_NON_REQUIRED: &str = r#"{
  "locality": "Cityville",
  "region": "Stateland",
  "country-name": "Countryland"
}"#;

const GREEN_DOOR_SCHEMA: &str = r#"{
  "$schema": "http://json-schema.org/draft-07/schema#",
  "$id": "http://example.com/product.schema.json",
  "description": "A product from Acme's catalog",
  "type": "object",
  "properties": {
    "productId": { "description": "The unique identifier for a product", "type": "integer" },
    "productName": { "description": "Name of the product", "type": "string" },
    "price": { "description": "The price of the product", "type": "number", "exclusiveMinimum": 0 },
    "tags": { "description": "Tags for the product", "type": "array", "items": { "type": "string" } }
  },
  "required": [ "productId", "productName", "price" ]
}"#;

const GREEN_DOOR_WRONG_NUMBER_TYPES: &str = r#"{
  "productId": 1.2,
  "productName": "A green door",
  "price": 12.50,
  "tags": [ "home", "green" ]
}"#;

const ROOT_ARRAY_SCHEMA: &str = r#"{
  "$schema": "http://json-schema.org/draft-07/schema#",
  "type": "array",
  "items": { "type": "string" }
}"#;

const ROOT_ARRAY: &str = r#"[ "one", "two", "three" ]"#;



#[test]
fn validation_validate_wrong_numbers() {
    let schema = Schema::parse(GREEN_DOOR_SCHEMA).unwrap();
    let json_green_door = JsonValue::parse(GREEN_DOOR_WRONG_NUMBER_TYPES).unwrap();
    println!("{:#?}", schema);
    let errors = schema.validate(&json_green_door).unwrap_err();
    let messages: Vec<String> = errors.iter().map(|e| e.message()).collect();
    assert_eq!(messages, vec![String::from("expected integer found Number(1.2)")]);
}

#[test]
fn validation_validate_pure_string_object() {
    let schema = Schema::parse(ADDRESS_SCHEMA).unwrap();
    let json_correct = JsonValue::parse(ADDRESS).unwrap();
    schema.validate(&json_correct).unwrap();
}

#[test]
fn validation_validate_root_array() {
    let schema = Schema::parse(ROOT_ARRAY_SCHEMA).unwrap();
    let json_array = JsonValue::parse(ROOT_ARRAY).unwrap();
    schema.validate(&json_array).unwrap();
}

#[test]
fn validation_validate_find_wrong_type() {
    let schema = Schema::parse(ADDRESS_SCHEMA).unwrap();
    let json_wrong_type = JsonValue::parse(ADDRESS_WRONG_TYPE).unwrap();
    assert!(schema.validate(&json_wrong_type).is_err());
}

#[test]
fn validation_validate_find_missing_required() {
    let schema = Schema::parse(ADDRESS_SCHEMA).unwrap();
    let json_missing = JsonValue::parse(ADDRESS_MISSING).unwrap();
    assert!(schema.validate(&json_missing).is_err());
}

#[test]
fn validation_validate_find_missing() {
    let schema = Schema::parse(ADDRESS_SCHEMA).unwrap();
    let json_missing = JsonValue::parse(ADDRESS_MISSING_NON_REQUIRED).unwrap();
    schema.validate(&json_missing).unwrap();
}
