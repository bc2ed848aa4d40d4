use rustventually::schema::{
    ConvertFrom, ConvertTo, ConverterSchema, Field, FieldQuery, Schema,
};
use rustventually::transform::{transform, DocValue};

fn timestamp_schema() -> Schema {
    Schema {
        fields: vec![
            (
                "created".to_string(),
                Field {
                    name: "created".to_string(),
                    converter: Some(ConverterSchema {
                        from: ConvertFrom::DateTimeString,
                        to: ConvertTo::Timestamp,
                    }),
                    query: FieldQuery::AmbiguousTag,
                },
            ),
            (
                "updated".to_string(),
                Field {
                    name: "updated".to_string(),
                    converter: Some(ConverterSchema {
                        from: ConvertFrom::DateTimeString,
                        to: ConvertTo::TimestampMillis,
                    }),
                    query: FieldQuery::AmbiguousTag,
                },
            ),
            (
                "title".to_string(),
                Field { name: "title".to_string(), converter: None, query: FieldQuery::StringTag },
            ),
        ],
        default_order_by: "title".to_string(),
        table: "documents".to_string(),
    }
}

fn text_of(v: &DocValue) -> &str {
    match v {
        DocValue::Text(s) => s.as_str(),
        _ => panic!("expected a text value"),
    }
}

#[test]
fn seconds_become_rfc3339() {
    let doc = vec![("created".to_string(), DocValue::Int(0))];
    let out = transform(&timestamp_schema(), &doc);
    assert_eq!(out.len(), 1);
    assert_eq!(out[0].0, "created");
    assert_eq!(text_of(&out[0].1), "1970-01-01T00:00:00.000Z");
}

#[test]
fn millis_become_rfc3339() {
    let doc = vec![("updated".to_string(), DocValue::Int(947638923004))];
    let out = transform(&timestamp_schema(), &doc);
    assert_eq!(text_of(&out[0].1), "2000-01-12T01:02:03.004Z");
}

#[test]
fn seconds_keep_millisecond_precision() {
    let doc = vec![("created".to_string(), DocValue::Int(1431648000))];
    let out = transform(&timestamp_schema(), &doc);
    assert_eq!(text_of(&out[0].1), "2015-05-15T00:00:00.000Z");
}

#[test]
fn fields_without_converter_pass_through() {
    let doc = vec![
        ("title".to_string(), DocValue::Text("Ghosts".to_string())),
        ("other".to_string(), DocValue::Int(7)),
    ];
    let out = transform(&timestamp_schema(), &doc);
    assert_eq!(text_of(&out[0].1), "Ghosts");
    assert!(matches!(out[1].1, DocValue::Int(7)));
}

#[test]
fn non_integer_converter_fields_pass_through() {
    let doc = vec![("created".to_string(), DocValue::Text("already".to_string()))];
    let out = transform(&timestamp_schema(), &doc);
    assert_eq!(text_of(&out[0].1), "already");
}

#[test]
fn out_of_range_timestamps_are_kept() {
    let doc = vec![("created".to_string(), DocValue::Int(i64::MAX))];
    let out = transform(&timestamp_schema(), &doc);
    assert!(matches!(out[0].1, DocValue::Int(n) if n == i64::MAX));
}

#[test]
fn transform_is_idempotent() {
    let schema = timestamp_schema();
    let doc = vec![
        ("created".to_string(), DocValue::Int(1431648000)),
        ("updated".to_string(), DocValue::Int(947638923004)),
        ("title".to_string(), DocValue::Text("Ghosts".to_string())),
        ("flag".to_string(), DocValue::Truth(true)),
    ];
    let once = transform(&schema, &doc);
    let twice = transform(&schema, &once);
    assert_eq!(once.len(), twice.len());
    for i in 0..once.len() {
        assert_eq!(once[i].0, twice[i].0);
        match (&once[i].1, &twice[i].1) {
            (DocValue::Int(a), DocValue::Int(b)) => assert_eq!(a, b),
            (DocValue::Text(a), DocValue::Text(b)) => assert_eq!(a, b),
            (DocValue::Truth(a), DocValue::Truth(b)) => assert_eq!(a, b),
            (DocValue::Other, DocValue::Other) => {},
            _ => panic!("transforming twice changed a value's shape"),
        }
    }
}
