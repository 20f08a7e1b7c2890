use qaid::domain::error::{APIError, BadSchemaInfo};
use qaid::domain::headers::Headers;
use qaid::domain::primitive_types::PrimType;
use qaid::domain::schema::{FieldSchema, Schema};

#[test]
fn allowable_types_should_return_ok() {
    let schema = vec![
        FieldSchema::new("name1".to_owned(), "String".to_owned()),
        FieldSchema::new("name2".to_owned(), "STRING".to_owned()),
        FieldSchema::new("name3".to_owned(), "int".to_owned()),
        FieldSchema::new("name4".to_owned(), "flOAT".to_owned()),
        FieldSchema::new("name5".to_owned(), "dateTIME".to_owned()),
        FieldSchema::new("name6".to_owned(), "bool".to_owned()),
    ];

    let headers = vec![
        "name1".to_owned(),
        "name2".to_owned(),
        "name3".to_owned(),
        "name4".to_owned(),
        "name5".to_owned(),
        "name6".to_owned(),
    ];

    let headers = Headers::parse(headers).unwrap();

    let schema = Schema::parse(schema, &headers);

    assert!(schema.is_ok());
}

#[test]
fn duplicate_names_should_return_err() {
    let schema = vec![
        FieldSchema::new("name1".to_owned(), "String".to_owned()),
        FieldSchema::new("name1".to_owned(), "STRING".to_owned()),
        FieldSchema::new("name3".to_owned(), "int".to_owned()),
        FieldSchema::new("name4".to_owned(), "flOAT".to_owned()),
        FieldSchema::new("name5".to_owned(), "dateTIME".to_owned()),
    ];

    let headers = vec![
        "name1".to_owned(),
        "name2".to_owned(),
        "name3".to_owned(),
        "name4".to_owned(),
        "name5".to_owned(),
    ];

    let headers = Headers::parse(headers).unwrap();

    let schema = Schema::parse(schema, &headers);

    assert!(schema.is_err());
}

#[test]
fn invalid_type_should_return_err() {
    let schema = vec![
        FieldSchema::new("name1".to_owned(), "i32".to_owned()),
        FieldSchema::new("name2".to_owned(), "str".to_owned()),
        FieldSchema::new("name3".to_owned(), "int".to_owned()),
        FieldSchema::new("name4".to_owned(), "flOAT".to_owned()),
        FieldSchema::new("name5".to_owned(), "dateTIME".to_owned()),
    ];

    let headers = vec![
        "name1".to_owned(),
        "name2".to_owned(),
        "name3".to_owned(),
        "name4".to_owned(),
        "name5".to_owned(),
    ];

    let headers = Headers::parse(headers).unwrap();

    let schema = Schema::parse(schema, &headers);

    assert!(schema.is_err());
}

#[test]
fn schema_error_lists_every_problem() {
    let schema = vec![
        FieldSchema::new("name1".to_owned(), "i32".to_owned()),
        FieldSchema::new("name1".to_owned(), "int".to_owned()),
        FieldSchema::new("Name3".to_owned(), "float".to_owned()),
    ];
    let headers = Headers::parse(vec!["name1".to_owned(), "name2".to_owned(), "NAME3".to_owned()]).unwrap();
    let expected = BadSchemaInfo {
        incorrect_type: vec![FieldSchema::new("name1".to_owned(), "i32".to_owned())],
        duplicate_names: vec!["name1".to_owned()],
        missing_fields: vec!["name2".to_owned()],
    };
    assert_eq!(Schema::parse(schema, &headers), Err(APIError::BadSchema(expected)));
}

#[test]
fn accepted_schema_finds_each_field_by_name() {
    let schema = vec![
        FieldSchema::new("PID".to_owned(), "String".to_owned()),
        FieldSchema::new("Count".to_owned(), "INT".to_owned()),
    ];
    let headers = Headers::parse(vec!["pid".to_owned(), "count".to_owned()]).unwrap();
    let schema = Schema::parse(schema, &headers).unwrap();
    assert_eq!(schema.get("PID"), Some(&"String".to_owned()));
    assert_eq!(schema.get("Count"), Some(&"INT".to_owned()));
    // Lookup is by exact name.
    assert_eq!(schema.get("pid"), None);
    let infos = schema.infos();
    assert_eq!(infos.len(), 2);
    assert_eq!(infos[0].header_name, "PID");
    assert_eq!(infos[0].data_type, PrimType::String);
    assert_eq!(infos[1].data_type, PrimType::Int);
}

#[test]
fn schema_copies_keep_their_entries() {
    let headers = Headers::parse(vec!["a".to_owned(), "b".to_owned()]).unwrap();
    let def = vec![
        FieldSchema::new("a".to_owned(), "Int".to_owned()),
        FieldSchema::new("b".to_owned(), "String".to_owned()),
    ];
    let schema = Schema::parse(def, &headers).unwrap();
    let copy = schema.clone();
    assert_eq!(copy, schema);
    assert_eq!(copy.get("b"), Some(&"String".to_owned()));
}
