use serde_json_schema::Schema;

const ADDRESS_SCHEMA: &str = r#"{
  "$id": "https://example.com/address.schema.json",
  "$schema": "http://json-schema.org/draft-07/schema#",
  "description": "An address similar to http://microformats.org/wiki/h-card",
  "type": "object",
  "properties": {
    "post-office-box": { "type": "string" },
    "extended-address": { "type": "string" },
    "street-address": { "type": "string" },
    "locality": { "type": "string" },
    "region": { "type": "string" },
    "country-name": { "type": "string" },
    "postal-code": { "type": "string" }
  },
  "required": [ "locality", "region", "country-name" ],
  "dependencies": {
    "post-office-box": [ "street-address" ],
    "extended-address": [ "street-address" ]
  }
}"#;

const CALENDAR_SCHEMA: &str = r#"{
  "$id": "https://example.com/calendar.schema.json",
  "$schema": "http://json-schema.org/draft-07/schema#",
  "description": "A representation of an event",
  "type": "object",
  "required": [ "dtstart", "summary" ],
  "properties": {
    "dtstart": { "type": "string", "description": "Event starting time" },
    "dtend": { "type": "string", "description": "Event ending time" },
    "summary": { "type": "string" },
    "location": { "type": "string" },
    "url": { "type": "string" },
    "duration": { "type": "string", "description": "Event duration" },
    "rdate": { "type": "string", "description": "Recurrence date" },
    "rrule": { "type": "string", "description": "Recurrence rule" },
    "category": { "type": "string" },
    "description": { "type": "string" },
    "geo": { "$ref": "https://example.com/geographical-location.schema.json" }
  }
}"#;

const CARD_SCHEMA: &str = r#"{
  "$id": "https://example.com/card.schema.json",
  "$schema": "http://json-schema.org/draft-07/schema#",
  "description": "A representation of a person, company, organization, or place",
  "type": "object",
  "required": [ "familyName", "givenName" ],
  "properties": {
    "fn": { "description": "Formatted Name", "type": "string" },
    "familyName": { "type": "string" },
    "givenName": { "type": "string" },
    "nickname": { "type": "string" },
    "url": { "type": "string" },
    "org": {
      "type": "object",
      "properties": {
        "organizationName": { "type": "string" },
        "organizationUnit": { "type": "string" }
      }
    }
  }
}"#;

const GREEN_DOOR_SCHEMA: &str = r#"{
  "$schema": "http://json-schema.org/draft-07/schema#",
  "$id": "http://example.com/product.schema.json",
  "description": "A product from Acme's catalog",
  "type": "object",
  "properties": {
    "productId": { "description": "The unique identifier for a product", "type": "integer" },
    "productName": { "description": "Name of the product", "type": "string" },
    "price": { "description": "The price of the product", "type": "number", "exclusiveMinimum": 0 },
    "tags": { "description": "Tags for the product", "type": "array", "items": { "type": "string" } }
  },
  "required": [ "productId", "productName", "price" ]
}"#;

const GREEN_DOOR: &str = r#"{
  "productId": 1,
  "productName": "A green door",
  "price": 12.50,
  "tags": [ "home", "green" ]
}"#;


#[test]
fn parse_examples_address_example() {
    let schema = Schema::parse(ADDRESS_SCHEMA).unwrap();
    println!("{:#?}", schema);
}

#[test]
fn parse_examples_calendar_example() {
    let schema = Schema::parse(CALENDAR_SCHEMA).unwrap();
    println!("{:#?}", schema);
}

#[test]
fn parse_examples_card_example() {
    let schema = Schema::parse(CARD_SCHEMA).unwrap();
    println!("{:#?}", schema);
}

#[test]
fn parse_examples_draft_version() {
    let schema = Schema::parse(CARD_SCHEMA).unwrap();
    println!("{:#?}", schema.draft_version());
    assert_eq!(schema.draft_version(), Some(String::from("draft-07")))
}

#[test]
fn parse_examples_green_door_example() {
    let schema = Schema::parse(GREEN_DOOR_SCHEMA).unwrap();
    let json_green_door = serde_json_schema::json::JsonValue::parse(GREEN_DOOR).unwrap();
    println!("{:#?}", schema);
    schema.validate(&json_green_door).unwrap();
}
