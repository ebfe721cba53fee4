use mongo_telemetry::analysis::{analyze_documents, count_field_types, typed_fields};
use mongo_telemetry::model::BsonType;
use mongodb::bson::oid::ObjectId;
use mongodb::bson::spec::BinarySubtype;
use mongodb::bson::{
    Binary, Bson, DateTime, DbPointer, Decimal128, Document, JavaScriptCodeWithScope, Regex,
    Timestamp,
};

fn one_of_each() -> Vec<(Bson, BsonType)> {
    let pointer: DbPointer = mongodb::bson::from_bson(Bson::Document({
        let mut inner = Document::new();
        inner.insert("$ref", Bson::String("things".to_string()));
        inner.insert("$id", Bson::ObjectId(ObjectId::from_bytes([7u8; 12])));
        let mut outer = Document::new();
        outer.insert("$dbPointer", Bson::Document(inner));
        outer
    }))
    .unwrap();
    vec![
        (Bson::Double(1.5), BsonType::Double),
        (Bson::String("text".to_string()), BsonType::String),
        (Bson::Array(vec![Bson::Null]), BsonType::Array),
        (Bson::Document(Document::new()), BsonType::Document),
        (Bson::Boolean(true), BsonType::Boolean),
        (Bson::Null, BsonType::Null),
        (
            Bson::RegularExpression(Regex { pattern: "a+".to_string(), options: "i".to_string() }),
            BsonType::RegularExpression,
        ),
        (Bson::JavaScriptCode("1".to_string()), BsonType::JavaScriptCode),
        (
            Bson::JavaScriptCodeWithScope(JavaScriptCodeWithScope {
                code: "x".to_string(),
                scope: Document::new(),
            }),
            BsonType::JavaScriptCodeWithScope,
        ),
        (Bson::Int32(3), BsonType::Int32),
        (Bson::Int64(4), BsonType::Int64),
        (Bson::Timestamp(Timestamp { time: 1, increment: 2 }), BsonType::Timestamp),
        (
            Bson::Binary(Binary { subtype: BinarySubtype::Generic, bytes: vec![1, 2, 3] }),
            BsonType::Binary,
        ),
        (Bson::ObjectId(ObjectId::from_bytes([1u8; 12])), BsonType::ObjectId),
        (Bson::DateTime(DateTime::from_millis(0)), BsonType::DateTime),
        (Bson::Symbol("s".to_string()), BsonType::Symbol),
        (Bson::Decimal128(Decimal128::from_bytes([0u8; 16])), BsonType::Decimal128),
        (Bson::Undefined, BsonType::Undefined),
        (Bson::MaxKey, BsonType::MaxKey),
        (Bson::MinKey, BsonType::MinKey),
        (Bson::DbPointer(pointer), BsonType::DbPointer),
    ]
}

#[test]
fn every_kind_of_value_has_its_tag() {
    let values = one_of_each();
    assert_eq!(values.len(), 21);
    for (value, kind) in values {
        assert_eq!(BsonType::from_element_tag(value.element_type() as u8), Some(kind));
    }
}

#[test]
fn tags_are_those_of_the_format() {
    assert_eq!(BsonType::from_element_tag(0x01), Some(BsonType::Double));
    assert_eq!(BsonType::from_element_tag(0x02), Some(BsonType::String));
    assert_eq!(BsonType::from_element_tag(0x03), Some(BsonType::Document));
    assert_eq!(BsonType::from_element_tag(0x04), Some(BsonType::Array));
    assert_eq!(BsonType::from_element_tag(0x08), Some(BsonType::Boolean));
    assert_eq!(BsonType::from_element_tag(0x0A), Some(BsonType::Null));
    assert_eq!(BsonType::from_element_tag(0x10), Some(BsonType::Int32));
    assert_eq!(BsonType::from_element_tag(0x12), Some(BsonType::Int64));
    assert_eq!(BsonType::from_element_tag(0x13), Some(BsonType::Decimal128));
    assert_eq!(BsonType::from_element_tag(0x7F), Some(BsonType::MaxKey));
    assert_eq!(BsonType::from_element_tag(0xFF), Some(BsonType::MinKey));
}

#[test]
fn bytes_that_are_no_tag_have_no_kind() {
    assert_eq!(BsonType::from_element_tag(0x00), None);
    assert_eq!(BsonType::from_element_tag(0x14), None);
    assert_eq!(BsonType::from_element_tag(0x7E), None);
    assert_eq!(BsonType::from_element_tag(0x80), None);
    assert_eq!(BsonType::from_element_tag(0xFE), None);
    let known = (0u8..=255).filter(|tag| BsonType::from_element_tag(*tag).is_some()).count();
    assert_eq!(known, 21);
}

#[test]
fn typed_fields_follow_the_documents_in_order() {
    let mut first = Document::new();
    first.insert("name", Bson::String("a".to_string()));
    first.insert("age", Bson::Int32(3));
    let mut second = Document::new();
    second.insert("age", Bson::Double(3.5));
    second.insert("name", Bson::Null);
    second.insert("tags", Bson::Array(Vec::new()));
    let typed = typed_fields(&vec![first, Document::new(), second]);
    assert_eq!(
        typed,
        vec![
            ("name".to_string(), BsonType::String),
            ("age".to_string(), BsonType::Int32),
            ("age".to_string(), BsonType::Double),
            ("name".to_string(), BsonType::Null),
            ("tags".to_string(), BsonType::Array),
        ]
    );
}

#[test]
fn typed_fields_know_every_kind() {
    let mut document = Document::new();
    let values = one_of_each();
    for (position, (value, _)) in values.iter().enumerate() {
        document.insert(format!("field{}", position), value.clone());
    }
    let typed = typed_fields(&vec![document]);
    assert_eq!(typed.len(), 21);
    for (position, (_, kind)) in values.iter().enumerate() {
        assert_eq!(typed[position], (format!("field{}", position), *kind));
    }
}

#[test]
fn no_fields_give_an_empty_tally() {
    assert!(count_field_types(&Vec::new()).is_empty());
    assert!(analyze_documents(&Vec::new()).is_empty());
    assert!(analyze_documents(&vec![Document::new(), Document::new()]).is_empty());
}

#[test]
fn tally_counts_each_kind_under_each_key() {
    let fields = vec![
        ("a".to_string(), BsonType::Int32),
        ("b".to_string(), BsonType::String),
        ("a".to_string(), BsonType::Int32),
        ("a".to_string(), BsonType::Null),
        ("b".to_string(), BsonType::String),
        ("a".to_string(), BsonType::Int32),
        ("c".to_string(), BsonType::Boolean),
    ];
    assert_eq!(
        count_field_types(&fields),
        vec![
            ("a".to_string(), vec![(BsonType::Int32, 3), (BsonType::Null, 1)]),
            ("b".to_string(), vec![(BsonType::String, 2)]),
            ("c".to_string(), vec![(BsonType::Boolean, 1)]),
        ]
    );
}

#[test]
fn same_kind_under_different_keys_is_counted_apart() {
    let fields = vec![
        ("x".to_string(), BsonType::Double),
        ("y".to_string(), BsonType::Double),
        ("x".to_string(), BsonType::Double),
    ];
    assert_eq!(
        count_field_types(&fields),
        vec![
            ("x".to_string(), vec![(BsonType::Double, 2)]),
            ("y".to_string(), vec![(BsonType::Double, 1)]),
        ]
    );
}

#[test]
fn documents_are_tallied_by_field_and_kind() {
    let mut documents = Vec::new();
    for round in 0..10 {
        let mut document = Document::new();
        document.insert("_id", Bson::Int32(round));
        if round % 2 == 0 {
            document.insert("value", Bson::String("even".to_string()));
        } else {
            document.insert("value", Bson::Int64(round as i64));
        }
        if round == 9 {
            document.insert("last", Bson::Boolean(true));
        }
        documents.push(document);
    }
    assert_eq!(
        analyze_documents(&documents),
        vec![
            ("_id".to_string(), vec![(BsonType::Int32, 10)]),
            ("value".to_string(), vec![(BsonType::String, 5), (BsonType::Int64, 5)]),
            ("last".to_string(), vec![(BsonType::Boolean, 1)]),
        ]
    );
}
