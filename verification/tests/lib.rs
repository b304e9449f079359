use serde_json_schema::json::JsonValue;
use serde_json_schema::Schema;

const ADDRESS_SCHEMA: &str = r#"{
  "$id": "https://example.com/address.schema.json",
  "$schema": "http://json-schema.org/draft-07/schema#",
  "description": "An address similar to http://microformats.org/wiki/h-card",
  "type": "object",
  "properties": {
    "post-office-box": { "type": "string" },
    "extended-address": { "type": "string" },
    "street-address": { "type": "string" },
    "locality": { "type": "string" },
    "region": { "type": "string" },
    "country-name": { "type": "string" },
    "postal-code": { "type": "string" }
  },
  "required": [ "locality", "region", "country-name" ],
  "dependencies": {
    "post-office-box": [ "street-address" ],
    "extended-address": [ "street-address" ]
  }
}"#;

const ADDRESS: &str = r#"{
  "post-office-box": "123",
  "street-address": "456 Main St",
  "locality": "Cityville",
  "region": "Stateland",
  "country-name": "Countryland",
  "postal-code": "12345"
}"#;

const ADDRESS_WRONG_TYPE: &str = r#"{
  "locality": 42,
  "region": "Stateland",
  "country-name": "Countryland"
}"#;

const ADDRESS_MISSING: &str = r#"{
  "region": "Stateland"
}"#;

const ADDRESS_MISSING_NON_REQUIRED: &str = r#"{
  "locality": "Cityville",
  "region": "Stateland",
  "country-name": "Countryland"
}"#;

const CALENDAR_SCHEMA: &str = r#"{
  "$id": "https://example.com/calendar.schema.json",
  "$schema": "http://json-schema.org/draft-07/schema#",
  "description": "A representation of an event",
  "type": "object",
  "required": [ "dtstart", "summary" ],
  "properties": {
    "dtstart": { "type": "string", "description": "Event starting time" },
    "dtend": { "type": "string", "description": "Event ending time" },
    "summary": { "type": "string" },
    "location": { "type": "string" },
    "url": { "type": "string" },
    "duration": { "type": "string", "description": "Event duration" },
    "rdate": { "type": "string", "description": "Recurrence date" },
    "rrule": { "type": "string", "description": "Recurrence rule" },
    "category": { "type": "string" },
    "description": { "type": "string" },
    "geo": { "$ref": "https://example.com/geographical-location.schema.json" }
  }
}"#;

const CARD_SCHEMA: &str = r#"{
  "$id": "https://example.com/card.schema.json",
  "$schema": "http://json-schema.org/draft-07/schema#",
  "description": "A representation of a person, company, organization, or place",
  "type": "object",
  "required": [ "familyName", "givenName" ],
  "properties": {
    "fn": { "description": "Formatted Name", "type": "string" },
    "familyName": { "type": "string" },
    "givenName": { "type": "string" },
    "nickname": { "type": "string" },
    "url": { "type": "string" },
    "org": {
      "type": "object",
      "properties": {
        "organizationName": { "type": "string" },
        "organizationUnit": { "type": "string" }
      }
    }
  }
}"#;

const GREEN_DOOR_SCHEMA: &str = r#"{
  "$schema": "http://json-schema.org/draft-07/schema#",
  "$id": "http://example.com/product.schema.json",
  "description": "A product from Acme's catalog",
  "type": "object",
  "properties": {
    "productId": { "description": "The unique identifier for a product", "type": "integer" },
    "productName": { "description": "Name of the product", "type": "string" },
    "price": { "description": "The price of the product", "type": "number", "exclusiveMinimum": 0 },
    "tags": { "description": "Tags for the product", "type": "array", "items": { "type": "string" } }
  },
  "required": [ "productId", "productName", "price" ]
}"#;

const GREEN_DOOR: &str = r#"{
  "productId": 1,
  "productName": "A green door",
  "price": 12.50,
  "tags": [ "home", "green" ]
}"#;

const GREEN_DOOR_WRONG_NUMBER_TYPES: &str = r#"{
  "productId": 1.2,
  "productName": "A green door",
  "price": 12.50,
  "tags": [ "home", "green" ]
}"#;

const GEOGRAPHICAL_LOCATION_SCHEMA: &str = r#"{
  "$id": "https://example.com/geographical-location.schema.json",
  "$schema": "http://json-schema.org/draft-07/schema#",
  "description": "A geographical coordinate",
  "required": [ "latitude", "longitude" ],
  "type": "object",
  "properties": {
    "latitude": { "type": "number", "minimum": -90, "maximum": 90 },
    "longitude": { "type": "number", "minimum": -180, "maximum": 180 }
  }
}"#;

const ROOT_ARRAY_SCHEMA: &str = r#"{
  "$schema": "http://json-schema.org/draft-07/schema#",
  "type": "array",
  "items": { "type": "string" }
}"#;

const ROOT_ARRAY: &str = r#"[ "one", "two", "three" ]"#;


const REQUIRED_SUITE: &str = r#"[
  {
    "description": "required validation",
    "schema": {
      "properties": {
        "foo": {},
        "bar": {}
      },
      "required": ["foo"]
    },
    "tests": [
      {
        "description": "present required property is valid",
        "data": {"foo": 1},
        "valid": true
      },
      {
        "description": "non-present required property is invalid",
        "data": {"bar": 1},
        "valid": false
      }
    ]
  }
]"#;


#[test]
fn lib_basics() {
    let json_42 = JsonValue::parse("42").unwrap();
    let json_string = JsonValue::parse("\"I'm a string\"").unwrap();
    let json_object = JsonValue::parse(
        r#"{ "an": [ "arbitrarily", "nested" ], "data": "structure" }"#,
    )
    .unwrap();

    let empty_schema = Schema::parse("{}").unwrap();
    empty_schema.validate(&json_42).unwrap();
    empty_schema.validate(&json_string).unwrap();
    empty_schema.validate(&json_object).unwrap();

    let true_schema = Schema::parse("true").unwrap();
    true_schema.validate(&json_42).unwrap();
    true_schema.validate(&json_string).unwrap();
    true_schema.validate(&json_object).unwrap();

    let false_schema = Schema::parse("false").unwrap();
    assert!(false_schema.validate(&json_42).is_err());
    assert!(false_schema.validate(&json_string).is_err());
    assert!(false_schema.validate(&json_object).is_err());
}

#[test]
fn lib_number_spec() {
    let raw_schema: &str = r#"{
    "$schema": "http://json-schema.org/draft-07/schema#",
    "title": "Product",
    "description": "A product from Acme's catalog",
    "type": "number"
    }"#;

    let schema = Schema::parse(raw_schema).unwrap();
    println!("{:#?}", schema);

    schema.validate(&JsonValue::parse("-4.1416").unwrap()).unwrap();
    schema.validate(&JsonValue::parse("4.1416").unwrap()).unwrap();
}

#[test]
#[should_panic]
fn lib_number_spec_negative() {
    let raw_schema: &str = r#"{
    "$schema": "http://json-schema.org/draft-07/schema#",
    "title": "Product",
    "description": "A product from Acme's catalog",
    "type": "number"
    }"#;

    let schema = Schema::parse(raw_schema).unwrap();
    println!("{:#?}", schema);

    schema.validate(&JsonValue::parse("\"4.1416\"").unwrap()).unwrap();
}

#[test]
fn lib_number_types() {
    let raw_schema: &str = r#"{
    "$schema": "http://json-schema.org/draft-07/schema#",
    "$id": "http://example.com/product.schema.json",
    "title": "Product",
    "description": "A product from Acme's catalog",
    "type": "object",
    "properties": {
        "integer": {
        "description": "integer",
        "type": "integer"
        },
        "number": {
        "description": "number",
        "type": "number"
        }
    }
    }"#;

    let schema = Schema::parse(raw_schema).unwrap();
    println!("{:#?}", schema);

    schema.validate(&JsonValue::parse(r#"{ "integer": -42 }"#).unwrap()).unwrap();
    schema.validate(&JsonValue::parse(r#"{ "integer": 42 }"#).unwrap()).unwrap();
    schema.validate(&JsonValue::parse(r#"{ "number": -4.1416 }"#).unwrap()).unwrap();
    schema.validate(&JsonValue::parse(r#"{ "number": 4.1416 }"#).unwrap()).unwrap();
}

#[test]
fn lib_address_example() {
    let schema = Schema::parse(ADDRESS_SCHEMA).unwrap();
    println!("{:#?}", schema);
}

#[test]
fn from_json_value() {
    let value = JsonValue::parse(ADDRESS_SCHEMA).unwrap();
    let schema = Schema::parse(ADDRESS_SCHEMA).unwrap();

    let schema2 = Schema::from_value(value).unwrap();

    assert_eq!(schema, schema2);
    println!("{:#?}", schema);
}

#[test]
fn lib_calendar_example() {
    let schema = Schema::parse(CALENDAR_SCHEMA).unwrap();
    println!("{:#?}", schema);
}

#[test]
fn lib_card_example() {
    let schema = Schema::parse(CARD_SCHEMA).unwrap();
    println!("{:#?}", schema);
}

#[test]
fn lib_draft_version() {
    let schema = Schema::parse(CARD_SCHEMA).unwrap();
    println!("{:#?}", schema.draft_version());
    assert_eq!(schema.draft_version(), Some(String::from("draft-07")))
}

#[test]
fn lib_green_door_example() {
    let schema = Schema::parse(GREEN_DOOR_SCHEMA).unwrap();
    let json_green_door = JsonValue::parse(GREEN_DOOR).unwrap();
    println!("{:#?}", schema);
    schema.validate(&json_green_door).unwrap();
}

#[test]
fn required_not_required() {
    let raw_schema = r#"{
  "$id": "https://example.com/address.schema.json",
  "$schema": "http://json-schema.org/draft-07/schema#",
  "description": "An address similar to http://microformats.org/wiki/h-card",
  "type": "object",
  "properties": {
  },
  "dependencies": {
    "post-office-box": [ "street-address" ],
    "extended-address": [ "street-address" ]
  }

    }"#;
    let schema = Schema::parse(raw_schema).unwrap();
    assert!(schema.specification().is_some())
}

#[test]
#[should_panic]
fn lib_schema_must_be_a_url() {
    let raw_schema = r#"{
    "$schema": "not a uri",
    "description": "A product from Acme's catalog",
    "type": "object",
    "properties": {
        "productId": {
        "description": "The unique identifier for a product",
        "type": "integer"
        }
    },
    "required": [ "productId" ]
    }"#;
    Schema::parse(raw_schema).unwrap();
}

#[test]
#[should_panic]
fn id_must_not_contain_spaces() {
    let raw_schema = r#"{
    "$schema": "http://json-schema.org/draft-07/schema#",
    "$id": "not a uri",
    "description": "A product from Acme's catalog",
    "type": "object",
    "properties": {
        "productId": {
        "description": "The unique identifier for a product",
        "type": "integer"
        }
    },
    "required": [ "productId" ]
    }"#;
    let schema = Schema::parse(raw_schema).unwrap();
    println!("{:#?}", schema);
}

#[test]
fn id_may_be_a_uuid() {
    let raw_schema = r#"{
    "$schema": "http://json-schema.org/draft-07/schema#",
    "$id": "urn:uuid:ee564b8a-7a87-4125-8c96-e9f123d6766f"
    }"#;
    let schema = Schema::parse(raw_schema).unwrap();
    println!("{:#?}", schema);
}

#[test]
fn id_may_be_a_fragment() {
    let raw_schema = r##"{
    "$schema": "http://json-schema.org/draft-07/schema#",
    "$id": "#foo"
    }"##;
    let schema = Schema::parse(raw_schema).unwrap();
    println!("{:#?}", schema);
}

#[test]
fn id_may_be_a_path() {
    let raw_schema = r##"{
    "$schema": "http://json-schema.org/draft-07/schema#",
    "$id": "t/inner.json"
    }"##;
    let schema = Schema::parse(raw_schema).unwrap();
    println!("{:#?}", schema);
}

#[test]
fn lib_id_is_optional() {
    let raw_schema = r#"{
    "$schema": "http://json-schema.org/draft-07/schema#",
    "description": "A product from Acme's catalog",
    "type": "object",
    "properties": {
        "productId": {
        "description": "The unique identifier for a product",
        "type": "integer"
        }
    },
    "required": [ "productId" ]
    }"#;

    let schema = Schema::parse(raw_schema).unwrap();
    println!("{:#?}", schema);
    assert!(schema.id().is_none());
}

#[test]
fn lib_subschema() {
    let raw_schema = r##"{
        "$id": "http://example.com/root.json",
        "definitions": {
            "A": { "$id": "#foo" },
            "B": {
                "$id": "other.json",
                "definitions": {
                    "X": { "$id": "#bar" },
                    "Y": { "$id": "t/inner.json" }
                }
            },
            "C": {
                "$id": "urn:uuid:ee564b8a-7a87-4125-8c96-e9f123d6766f"
            }
        }
    }"##;

    let schema = Schema::parse(raw_schema).unwrap();
    println!("{:#?}", schema);
}

#[test]
fn lib_subschema_no_ids() {
    let raw_schema = r##"{
        "definitions": {
            "A": {},
            "B": {
                "definitions": {
                }
            },
            "C": {
            }
        }
    }"##;

    let schema = Schema::parse(raw_schema).unwrap();
    println!("{:#?}", schema);
}

#[test]
fn lib_validate_wrong_numbers() {
    let schema = Schema::parse(GREEN_DOOR_SCHEMA).unwrap();
    let json_green_door = JsonValue::parse(GREEN_DOOR_WRONG_NUMBER_TYPES).unwrap();
    println!("{:#?}", schema);
    let errors = schema.validate(&json_green_door).unwrap_err();
    let messages: Vec<String> = errors.iter().map(|e| e.message()).collect();
    assert_eq!(messages, vec![String::from("expected integer found Number(1.2)")]);
}

#[test]
fn lib_validate_pure_string_object() {
    let schema = Schema::parse(ADDRESS_SCHEMA).unwrap();
    let json_correct = JsonValue::parse(ADDRESS).unwrap();
    schema.validate(&json_correct).unwrap();
}

#[test]
fn lib_validate_root_array() {
    let schema = Schema::parse(ROOT_ARRAY_SCHEMA).unwrap();
    let json_array = JsonValue::parse(ROOT_ARRAY).unwrap();
    schema.validate(&json_array).unwrap();
}

#[test]
fn lib_validate_find_wrong_type() {
    let schema = Schema::parse(ADDRESS_SCHEMA).unwrap();
    let json_wrong_type = JsonValue::parse(ADDRESS_WRONG_TYPE).unwrap();
    assert!(schema.validate(&json_wrong_type).is_err());
}

#[test]
fn lib_validate_find_missing_required() {
    let schema = Schema::parse(ADDRESS_SCHEMA).unwrap();
    let json_missing = JsonValue::parse(ADDRESS_MISSING).unwrap();
    assert!(schema.validate(&json_missing).is_err());
}

#[test]
fn lib_validate_find_missing() {
    let schema = Schema::parse(ADDRESS_SCHEMA).unwrap();
    let json_missing = JsonValue::parse(ADDRESS_MISSING_NON_REQUIRED).unwrap();
    schema.validate(&json_missing).unwrap();
}

fn field<'a>(v: &'a JsonValue, key: &str) -> &'a JsonValue {
    match v {
        JsonValue::Object(entries) => {
            for (k, value) in entries {
                if k == key {
                    return value;
                }
            }
            panic!("missing field");
        }
        _ => panic!("not an object"),
    }
}

#[test]
fn suite_dialect1() {
    let schema = Schema::parse(GEOGRAPHICAL_LOCATION_SCHEMA).unwrap();
    println!("{:#?}", schema);
    println!("{:#?}", schema.to_value());
}

#[test]
fn suite_dialect2() {
    let suites = JsonValue::parse(REQUIRED_SUITE).unwrap();
    let one = match &suites {
        JsonValue::Array(items) => field(&items[0], "schema"),
        _ => panic!("not an array"),
    };
    let schema = Schema::from_json(one).unwrap();
    println!("{:#?}", schema);
    println!("{:#?}", schema.to_value());
}
