use rustventually::err::CompassError;
use rustventually::query::{compile, Binding, CompiledQuery, SortOrder};
use rustventually::schema::{Field, FieldQuery, FulltextSyntax, Schema};

fn field(name: &str, query: FieldQuery) -> (String, Field) {
    (name.to_string(), Field { name: name.to_string(), converter: None, query })
}

fn test_schema() -> Schema {
    Schema {
        fields: vec![
            field(
                "season",
                FieldQuery::Range {
                    min: "season_min".to_string(),
                    max: "season_max".to_string(),
                    aliases: vec![("FINAL".to_string(), 99)],
                },
            ),
            field("tag", FieldQuery::StringTag),
            field(
                "desc",
                FieldQuery::Fulltext {
                    lang: "english".to_string(),
                    syntax: FulltextSyntax::WebSearch,
                    target: None,
                },
            ),
            field("meta", FieldQuery::Nested),
            field("active", FieldQuery::Bool),
            field("level", FieldQuery::NumericTag { aliases: vec![("MAX".to_string(), 5)] }),
            field("note", FieldQuery::AmbiguousTag),
        ],
        default_order_by: "title".to_string(),
        table: "documents".to_string(),
    }
}

fn params(ps: &[(&str, &str)]) -> Vec<(String, String)> {
    ps.iter().map(|(a, b)| (a.to_string(), b.to_string())).collect()
}

fn ok(ps: &[(&str, &str)]) -> CompiledQuery {
    compile(&test_schema(), &params(ps)).expect("compilation should succeed")
}

fn text_binding(q: &CompiledQuery, i: usize) -> &str {
    match &q.bindings[i] {
        Binding::Text(s) => s.as_str(),
        Binding::Int(_) => panic!("expected a text binding"),
    }
}

fn int_binding(q: &CompiledQuery, i: usize) -> i64 {
    match &q.bindings[i] {
        Binding::Int(n) => *n,
        Binding::Text(_) => panic!("expected an integer binding"),
    }
}

fn placeholder_count(sql: &str) -> usize {
    let cs: Vec<char> = sql.chars().collect();
    let mut n = 0;
    for i in 0..cs.len() {
        if cs[i] == '$' && i + 1 < cs.len() && cs[i + 1].is_ascii_digit() {
            n += 1;
        }
    }
    n
}

#[test]
fn single_numeric_term() {
    let q = ok(&[("season", "5")]);
    assert_eq!(q.json_path, "(($.season == 5))");
    assert_eq!(
        q.sql,
        "SELECT object FROM documents WHERE object @@ CAST($1 AS JSONPATH) \
         ORDER BY (object #> ($2)::text[]) DESC, doc_id NULLS LAST LIMIT $3 OFFSET $4"
    );
    assert_eq!(q.bindings.len(), 4);
    assert_eq!(text_binding(&q, 0), "(($.season == 5))");
    assert_eq!(text_binding(&q, 1), "title");
    assert_eq!(int_binding(&q, 2), 100);
    assert_eq!(int_binding(&q, 3), 0);
    assert_eq!(q.sort_order, SortOrder::Desc);
}

#[test]
fn range_min_and_max() {
    let q = ok(&[("season_min", "3"), ("season_max", "7")]);
    assert_eq!(q.json_path, "(($.season > 3) && ($.season < 7))");
}

#[test]
fn string_or_fold() {
    let q = ok(&[("tag", "horror_or_scifi")]);
    assert_eq!(q.json_path, "(($.tag == \"horror\") || ($.tag == \"scifi\"))");
}

#[test]
fn and_fold() {
    let q = ok(&[("season", "5_and_7")]);
    assert_eq!(q.json_path, "(($.season == 5) && ($.season == 7))");
}

#[test]
fn range_alias() {
    let q = ok(&[("season", "FINAL")]);
    assert_eq!(q.json_path, "(($.season == 99))");
}

#[test]
fn range_alias_is_case_insensitive() {
    let q = ok(&[("season", "final")]);
    assert_eq!(q.json_path, "(($.season == 99))");
}

#[test]
fn fulltext_only() {
    let q = ok(&[("desc", "ghost story"), ("limit", "10"), ("sortorder", "asc")]);
    assert_eq!(
        q.sql,
        "SELECT object FROM documents WHERE to_tsvector('english',object->>'desc') \
         @@ websearch_to_tsquery('english',$4) \
         ORDER BY (object #> ($1)::text[]) ASC, doc_id NULLS LAST LIMIT $2 OFFSET $3"
    );
    assert_eq!(q.json_path, "");
    assert_eq!(q.bindings.len(), 4);
    assert_eq!(text_binding(&q, 0), "title");
    assert_eq!(int_binding(&q, 1), 10);
    assert_eq!(int_binding(&q, 2), 0);
    assert_eq!(text_binding(&q, 3), "\"ghost story\"");
    assert_eq!(q.sort_order, SortOrder::Asc);
    assert_eq!(q.limit, 10);
}

#[test]
fn fulltext_beside_json_path_starts_at_five() {
    let q = ok(&[("desc", "ghost"), ("season", "5")]);
    assert_eq!(
        q.sql,
        "SELECT object FROM documents WHERE object @@ CAST($1 AS JSONPATH) \
         AND to_tsvector('english',object->>'desc') @@ websearch_to_tsquery('english',$5) \
         ORDER BY (object #> ($2)::text[]) DESC, doc_id NULLS LAST LIMIT $3 OFFSET $4"
    );
    assert_eq!(q.bindings.len(), 5);
    assert_eq!(text_binding(&q, 4), "\"ghost\"");
}

#[test]
fn nested_dotted_name() {
    let q = ok(&[("meta.author", "Kafka")]);
    assert_eq!(q.json_path, "(($.meta.author == \"Kafka\"))");
}

#[test]
fn nested_numeric_matches_both_shapes() {
    let q = ok(&[("meta.pages", "15")]);
    assert_eq!(q.json_path, "(($.meta.pages == 15) || ($.meta.pages == \"15\"))");
}

#[test]
fn invalid_number_fails() {
    let r = compile(&test_schema(), &params(&[("season", "abc")]));
    match r {
        Err(CompassError::InvalidNumber { param, term }) => {
            assert_eq!(param, "season");
            assert_eq!(term, "abc");
        },
        _ => panic!("expected an invalid-number error"),
    }
}

#[test]
fn invalid_bool_fails() {
    let r = compile(&test_schema(), &params(&[("active", "maybe")]));
    match r {
        Err(CompassError::InvalidBool { param, term }) => {
            assert_eq!(param, "active");
            assert_eq!(term, "maybe");
        },
        _ => panic!("expected an invalid-bool error"),
    }
}

#[test]
fn bool_term() {
    let q = ok(&[("active", "true")]);
    assert_eq!(q.json_path, "(($.active == true))");
}

#[test]
fn numeric_tag_matches_both_shapes() {
    let q = ok(&[("level", "3")]);
    assert_eq!(q.json_path, "((($.level == 3) || ($.level == \"3\")))");
}

#[test]
fn numeric_tag_alias() {
    let q = ok(&[("level", "max")]);
    assert_eq!(q.json_path, "((($.level == 5) || ($.level == \"5\")))");
}

#[test]
fn exists_and_notexists() {
    let q = ok(&[("season", "exists"), ("tag", "notexists")]);
    assert_eq!(q.json_path, "((exists($.season)) && (!exists($.tag)))");
}

#[test]
fn ambiguous_integer_or_string() {
    let q = ok(&[("note", "7")]);
    assert_eq!(q.json_path, "(($.note == 7) || ($.note == \"7\"))");
}

#[test]
fn ambiguous_plain_string() {
    let q = ok(&[("note", "draft")]);
    assert_eq!(q.json_path, "(($.note == \"draft\"))");
}

#[test]
fn unknown_keys_are_skipped() {
    let q = ok(&[("nosuchfield", "1")]);
    assert_eq!(q.sql, "SELECT object FROM documents ORDER BY (object #> ($1)::text[]) DESC, doc_id NULLS LAST LIMIT $2 OFFSET $3");
    assert_eq!(q.json_path, "");
    assert_eq!(q.bindings.len(), 3);
}

#[test]
fn quote_in_string_term_is_rejected() {
    let r = compile(&test_schema(), &params(&[("tag", "a\"b")]));
    assert!(matches!(r, Err(CompassError::UnsafeText { .. })));
}

#[test]
fn backslash_in_nested_term_is_rejected() {
    let r = compile(&test_schema(), &params(&[("meta.author", "a\\b")]));
    assert!(matches!(r, Err(CompassError::UnsafeText { .. })));
}

#[test]
fn unsafe_nested_key_is_rejected() {
    let r = compile(&test_schema(), &params(&[("meta.a) || (1 == 1", "x")]));
    assert!(matches!(r, Err(CompassError::UnsafeText { .. })));
}

#[test]
fn unknown_joiner_joins_with_space() {
    let q = ok(&[("season", "5_xx_7")]);
    assert_eq!(q.json_path, "(($.season == 5) ($.season == 7))");
}

#[test]
fn trailing_joiner_is_dropped() {
    let q = ok(&[("season", "5_and")]);
    assert_eq!(q.json_path, "(($.season == 5))");
}

#[test]
fn unknown_sortorder_collapses_to_asc() {
    let q = ok(&[("sortorder", "sideways")]);
    assert!(q.sql.contains(" ASC,"));
    assert_eq!(q.sort_order, SortOrder::Asc);
}

#[test]
fn sortby_overrides_default() {
    let q = ok(&[("sortby", "meta.author")]);
    assert_eq!(q.sort_field, "meta.author");
    assert_eq!(text_binding(&q, 0), "meta.author");
}

#[test]
fn explicit_plus_sign_parses() {
    let q = ok(&[("season", "+5")]);
    assert_eq!(q.json_path, "(($.season == 5))");
}

#[test]
fn negative_term_parses() {
    let q = ok(&[("season", "-12")]);
    assert_eq!(q.json_path, "(($.season == -12))");
}

#[test]
fn oversized_number_is_rejected() {
    let r = compile(&test_schema(), &params(&[("season", "99999999999999999999999")]));
    assert!(matches!(r, Err(CompassError::InvalidNumber { .. })));
}

#[test]
fn extreme_values_parse_exactly() {
    let q = ok(&[("season", "9223372036854775807_and_-9223372036854775808")]);
    assert_eq!(
        q.json_path,
        "(($.season == 9223372036854775807) && ($.season == -9223372036854775808))"
    );
    let r = compile(&test_schema(), &params(&[("season", "9223372036854775808")]));
    assert!(matches!(r, Err(CompassError::InvalidNumber { .. })));
}

#[test]
fn negative_limit_is_rejected() {
    let r = compile(&test_schema(), &params(&[("limit", "-5")]));
    assert!(matches!(r, Err(CompassError::InvalidNumber { .. })));
}

#[test]
fn non_numeric_offset_is_rejected() {
    let r = compile(&test_schema(), &params(&[("offset", "ten")]));
    assert!(matches!(r, Err(CompassError::InvalidNumber { .. })));
}

#[test]
fn compilation_is_deterministic() {
    let ps = params(&[("season", "5"), ("desc", "ghost"), ("tag", "a_or_b")]);
    let q1 = compile(&test_schema(), &ps).unwrap();
    let q2 = compile(&test_schema(), &ps).unwrap();
    assert_eq!(q1.sql, q2.sql);
    assert_eq!(q1.json_path, q2.json_path);
    assert_eq!(q1.bindings.len(), q2.bindings.len());
    assert_eq!(q1.sort_field, q2.sort_field);
    assert_eq!(q1.limit, q2.limit);
    assert_eq!(q1.offset, q2.offset);
}

#[test]
fn placeholders_balance_bindings() {
    for ps in [
        vec![],
        vec![("season", "5")],
        vec![("desc", "ghost")],
        vec![("desc", "ghost"), ("season", "5"), ("tag", "a_or_b")],
        vec![("limit", "7"), ("offset", "3"), ("sortby", "x"), ("sortorder", "asc")],
    ] {
        let q = ok(&ps);
        assert_eq!(placeholder_count(&q.sql), q.bindings.len());
    }
}

#[test]
fn fulltext_binding_is_json_encoded() {
    let q = ok(&[("desc", "a \"quoted\" word")]);
    let last = q.bindings.len() - 1;
    assert_eq!(text_binding(&q, last), "\"a \\\"quoted\\\" word\"");
}

#[test]
fn fulltext_target_overrides_key() {
    let mut schema = test_schema();
    schema.fields.push(field(
        "body",
        FieldQuery::Fulltext {
            lang: "simple".to_string(),
            syntax: FulltextSyntax::Plain,
            target: Some("content".to_string()),
        },
    ));
    let q = compile(&schema, &params(&[("body", "words")])).unwrap();
    assert!(q.sql.contains("to_tsvector('simple',object->>'content') @@ plainto_tsquery('simple',$4)"));
}

#[test]
fn two_fulltext_parameters_number_in_order() {
    let mut schema = test_schema();
    schema.fields.push(field(
        "body",
        FieldQuery::Fulltext {
            lang: "english".to_string(),
            syntax: FulltextSyntax::Phrase,
            target: None,
        },
    ));
    let q = compile(
        &schema,
        &params(&[("desc", "ghost"), ("season", "5"), ("body", "dark house")]),
    )
    .unwrap();
    assert!(q.sql.contains("websearch_to_tsquery('english',$5)"));
    assert!(q.sql.contains("phraseto_tsquery('english',$6)"));
    assert_eq!(q.bindings.len(), 6);
    assert_eq!(text_binding(&q, 4), "\"ghost\"");
    assert_eq!(text_binding(&q, 5), "\"dark house\"");
}

#[test]
fn lookup_resolves_names() {
    let schema = test_schema();
    let (name, q) = schema.lookup("season_max").unwrap();
    assert_eq!(name, "season");
    assert!(matches!(q, FieldQuery::Max));
    let (name, q) = schema.lookup("meta.author.last").unwrap();
    assert_eq!(name, "meta.author.last");
    assert!(matches!(q, FieldQuery::Nested));
    assert!(schema.lookup("limit").is_none());
}

#[test]
fn error_surface_is_a_bad_request() {
    let e = compile(&test_schema(), &params(&[("season", "abc")])).unwrap_err();
    let (status, message) = e.status_and_message();
    assert_eq!(status, 400);
    assert_eq!(message, "couldn't parse number parameter");
}
