use tabjson::cmd::tojsonl::{
    column_type, domain_value, first_lower_char, indicator, is_boolean_domain, is_boolean_pair,
    profile_columns, run, schema_properties, CoercionTable, ColumnTypeProfile, DomainValue,
    JsonlType, ParseError,
};
use tabjson::error::CliError;
use tabjson::value::{parse_json, JsonValue};

fn entries(text: &str) -> Vec<(String, JsonValue)> {
    match parse_json(text.as_bytes()).unwrap() {
        JsonValue::Object(entries) => entries,
        other => panic!("not an object: {:?}", other),
    }
}

fn text(s: &str) -> DomainValue {
    DomainValue::Text(s.to_string())
}

fn strings(items: &[&str]) -> Vec<String> {
    items.iter().map(|s| s.to_string()).collect()
}

fn table(types: Vec<JsonlType>) -> CoercionTable {
    CoercionTable { types }
}

#[test]
fn first_lower_char_takes_the_first_character_in_lower_case() {
    assert_eq!(first_lower_char("True"), 't');
    assert_eq!(first_lower_char("yes"), 'y');
    assert_eq!(first_lower_char("1"), '1');
    assert_eq!(first_lower_char("Ünder"), 'Ü');
}

#[test]
fn first_lower_char_skips_leading_whitespace() {
    assert_eq!(first_lower_char("  \t No"), 'n');
    assert_eq!(first_lower_char("\u{3000}F"), 'f');
}

#[test]
fn first_lower_char_of_nothing_is_the_placeholder() {
    assert_eq!(first_lower_char(""), '_');
    assert_eq!(first_lower_char("   "), '_');
}

#[test]
fn type_names_are_matched_without_regard_to_case() {
    assert_eq!(JsonlType::from_str("boolean"), Ok(JsonlType::Boolean));
    assert_eq!(JsonlType::from_str("STRING"), Ok(JsonlType::String));
    assert_eq!(JsonlType::from_str("Number"), Ok(JsonlType::Number));
    assert_eq!(JsonlType::from_str("inTeGer"), Ok(JsonlType::Integer));
    assert_eq!(JsonlType::from_str("null"), Ok(JsonlType::Null));
}

#[test]
fn an_unknown_type_name_is_not_found() {
    assert_eq!(JsonlType::from_str("date"), Err(ParseError::VariantNotFound));
    assert_eq!(JsonlType::from_str(""), Err(ParseError::VariantNotFound));
    assert_eq!(JsonlType::from_str("strin"), Err(ParseError::VariantNotFound));
}

#[test]
fn indicators_of_domain_values() {
    assert_eq!(indicator(&DomainValue::Null), '_');
    assert_eq!(indicator(&text("Yes")), 'y');
    assert_eq!(indicator(&text("")), '_');
    assert_eq!(indicator(&DomainValue::Integer(1)), '1');
    assert_eq!(indicator(&DomainValue::Integer(0)), '0');
    assert_eq!(indicator(&DomainValue::Integer(2)), '*');
    assert_eq!(indicator(&DomainValue::Other), '*');
}

#[test]
fn domain_values_are_read_from_json() {
    let values = match parse_json(br#"[null, "t", 1, 0, 7, -1, 1.5, true, [], {}]"#).unwrap() {
        JsonValue::Array(items) => items,
        other => panic!("not an array: {:?}", other),
    };
    let read: Vec<DomainValue> = values.iter().map(domain_value).collect();
    assert_eq!(
        read,
        vec![
            DomainValue::Null,
            text("t"),
            DomainValue::Integer(1),
            DomainValue::Integer(0),
            DomainValue::Integer(7),
            DomainValue::Other,
            DomainValue::Other,
            DomainValue::Other,
            DomainValue::Other,
            DomainValue::Other,
        ]
    );
}

#[test]
fn the_six_boolean_pairs_in_both_orders() {
    let pairs = [
        ('t', 'f'),
        ('t', '_'),
        ('f', 't'),
        ('_', 't'),
        ('1', '0'),
        ('1', '_'),
        ('0', '1'),
        ('_', '1'),
        ('y', 'n'),
        ('y', '_'),
        ('n', 'y'),
        ('_', 'y'),
    ];
    for (a, b) in pairs {
        assert!(is_boolean_pair(a, b), "{a} {b}");
        assert!(is_boolean_pair(b, a), "{b} {a}");
    }
}

#[test]
fn other_pairs_are_not_boolean() {
    let pairs = [
        ('t', 't'),
        ('t', 'y'),
        ('t', '1'),
        ('f', 'n'),
        ('f', '_'),
        ('0', '_'),
        ('n', '_'),
        ('_', '_'),
        ('t', '0'),
        ('t', 'n'),
        ('1', 'f'),
        ('y', 'f'),
        ('r', 'b'),
        ('t', '*'),
        ('*', '_'),
    ];
    for (a, b) in pairs {
        assert!(!is_boolean_pair(a, b), "{a} {b}");
        assert!(!is_boolean_pair(b, a), "{b} {a}");
    }
}

#[test]
fn two_value_domains_that_infer_boolean() {
    assert!(is_boolean_domain(&vec![text("t"), text("f")]));
    assert!(is_boolean_domain(&vec![text("1"), text("0")]));
    assert!(is_boolean_domain(&vec![text("y"), DomainValue::Null]));
    assert!(is_boolean_domain(&vec![text("n"), text("y")]));
    assert!(is_boolean_domain(&vec![text("yes"), text("no")]));
    assert!(is_boolean_domain(&vec![text("true"), text("false")]));
    assert!(is_boolean_domain(&vec![text("False"), text("TRUE")]));
    assert!(is_boolean_domain(&vec![DomainValue::Integer(1), DomainValue::Integer(0)]));
    assert!(is_boolean_domain(&vec![DomainValue::Null, DomainValue::Integer(1)]));
}

#[test]
fn domains_that_do_not_infer_boolean() {
    assert!(!is_boolean_domain(&vec![text("red"), text("blue")]));
    assert!(!is_boolean_domain(&vec![text("t"), text("true")]));
    assert!(!is_boolean_domain(&vec![text("f"), DomainValue::Null]));
    assert!(!is_boolean_domain(&vec![DomainValue::Integer(1), DomainValue::Integer(2)]));
    assert!(!is_boolean_domain(&vec![text("t"), DomainValue::Other]));
    assert!(!is_boolean_domain(&vec![text("t")]));
    assert!(!is_boolean_domain(&vec![text("t"), text("f"), DomainValue::Null]));
    assert!(!is_boolean_domain(&vec![]));
}

#[test]
fn a_boolean_domain_overrides_the_inferred_type() {
    let profile = ColumnTypeProfile {
        inferred_primitive: JsonlType::Integer,
        domain: Some(vec![DomainValue::Integer(1), DomainValue::Integer(0)]),
        nullable_present: false,
    };
    assert_eq!(column_type(&profile), JsonlType::Boolean);
}

#[test]
fn another_domain_keeps_the_inferred_type() {
    let profile = ColumnTypeProfile {
        inferred_primitive: JsonlType::String,
        domain: Some(vec![text("red"), text("blue")]),
        nullable_present: false,
    };
    assert_eq!(column_type(&profile), JsonlType::String);
    let profile = ColumnTypeProfile {
        inferred_primitive: JsonlType::Number,
        domain: None,
        nullable_present: true,
    };
    assert_eq!(column_type(&profile), JsonlType::Number);
}

#[test]
fn profiles_are_read_from_the_definitions_of_the_columns() {
    let schema = entries(
        r#"{
            "name": {"type": ["string"]},
            "active": {"type": ["integer", "null"], "enum": [1, 0]},
            "score": {"type": ["Number"]},
            "note": {"type": ["null"]},
            "when": {"type": ["date"]},
            "odd": {"type": "string", "enum": "t"},
            "bare": {}
        }"#,
    );
    let profiles = profile_columns(&schema).unwrap();
    assert_eq!(
        profiles,
        vec![
            ColumnTypeProfile {
                inferred_primitive: JsonlType::String,
                domain: None,
                nullable_present: false,
            },
            ColumnTypeProfile {
                inferred_primitive: JsonlType::Integer,
                domain: Some(vec![DomainValue::Integer(1), DomainValue::Integer(0)]),
                nullable_present: true,
            },
            ColumnTypeProfile {
                inferred_primitive: JsonlType::Number,
                domain: None,
                nullable_present: false,
            },
            ColumnTypeProfile {
                inferred_primitive: JsonlType::Null,
                domain: None,
                nullable_present: true,
            },
            ColumnTypeProfile {
                inferred_primitive: JsonlType::String,
                domain: None,
                nullable_present: false,
            },
            ColumnTypeProfile {
                inferred_primitive: JsonlType::String,
                domain: None,
                nullable_present: false,
            },
            ColumnTypeProfile {
                inferred_primitive: JsonlType::String,
                domain: None,
                nullable_present: false,
            },
        ]
    );
}

#[test]
fn a_definition_that_is_no_object_is_an_error() {
    let schema = entries(r#"{"name": {"type": ["string"]}, "age": 3}"#);
    assert_eq!(
        profile_columns(&schema),
        Err(CliError::Other("Cannot create field map".to_string()))
    );
}

#[test]
fn the_table_holds_the_type_of_each_column() {
    let schema = entries(
        r#"{
            "name": {"type": ["string"]},
            "active": {"type": ["string"], "enum": ["yes", "no"]},
            "colour": {"type": ["string"], "enum": ["red", "blue"]},
            "age": {"type": ["integer"]}
        }"#,
    );
    let profiles = profile_columns(&schema).unwrap();
    assert_eq!(
        CoercionTable::new(&profiles).types,
        vec![JsonlType::String, JsonlType::Boolean, JsonlType::String, JsonlType::Integer]
    );
}

#[test]
fn numeric_columns_emit_the_field_as_it_stands() {
    let t = table(vec![JsonlType::Integer, JsonlType::Number]);
    assert_eq!(t.emit(0, "42"), "42");
    assert_eq!(t.emit(1, "2.50"), "2.50");
    assert_eq!(t.emit(1, "-1e3"), "-1e3");
    assert_eq!(t.emit(0, "not a number"), "not a number");
}

#[test]
fn an_empty_numeric_field_is_null() {
    let t = table(vec![JsonlType::Integer, JsonlType::Number]);
    assert_eq!(t.emit(0, ""), "null");
    assert_eq!(t.emit(1, ""), "null");
}

#[test]
fn boolean_columns_emit_true_for_truthy_fields() {
    let t = table(vec![JsonlType::Boolean]);
    for field in ["t", "True", "y", "YES", "1", "  true", "10"] {
        assert_eq!(t.emit(0, field), "true", "{field}");
    }
}

#[test]
fn boolean_columns_emit_false_for_everything_else() {
    let t = table(vec![JsonlType::Boolean]);
    for field in ["f", "no", "0", "", "   ", "x", "_", "null"] {
        assert_eq!(t.emit(0, field), "false", "{field}");
    }
}

#[test]
fn null_columns_always_emit_null() {
    let t = table(vec![JsonlType::Null]);
    assert_eq!(t.emit(0, ""), "null");
    assert_eq!(t.emit(0, "anything"), "null");
}

#[test]
fn string_columns_quote_and_escape() {
    let t = table(vec![JsonlType::String]);
    assert_eq!(t.emit(0, "Ada"), r#""Ada""#);
    assert_eq!(t.emit(0, r#"say "hi""#), r#""say \"hi\"""#);
    assert_eq!(t.emit(0, r"a\b"), r#""a\\b""#);
    assert_eq!(t.emit(0, "two\nlines"), r#""two\nlines""#);
    assert_eq!(t.emit(0, "it's"), r#""it's""#);
    assert_eq!(t.emit(0, "café"), "\"café\"");
    assert_eq!(t.emit(0, " "), "\" \"");
}

#[test]
fn an_empty_string_field_is_null_and_never_an_empty_string() {
    let t = table(vec![JsonlType::String]);
    assert_eq!(t.emit(0, ""), "null");
    assert_ne!(t.emit(0, ""), "\"\"");
}

#[test]
fn a_field_without_a_type_is_null() {
    let t = table(vec![JsonlType::String]);
    assert_eq!(t.emit(1, "left over"), "null");
    assert_eq!(t.emit(7, ""), "null");
    assert_eq!(table(vec![]).emit(0, "x"), "null");
}

#[test]
fn a_row_wider_than_the_type_table_gets_null_for_the_rest() {
    let t = table(vec![JsonlType::String]);
    let line = t.emit_row(&strings(&["a", "b", "c"]), &strings(&["x", "y", "z"])).unwrap();
    assert_eq!(line, r#"{"a":"x","b":null,"c":null}"#);
}

#[test]
fn a_row_becomes_one_object_in_column_order() {
    let t = table(vec![JsonlType::String, JsonlType::Integer, JsonlType::Boolean, JsonlType::Null]);
    let line = t
        .emit_row(&strings(&["name", "age", "member", "note"]), &strings(&["Lin", "31", "y", "n/a"]))
        .unwrap();
    assert_eq!(line, r#"{"name":"Lin","age":31,"member":true,"note":null}"#);
}

#[test]
fn a_row_with_one_field_has_no_comma() {
    let t = table(vec![JsonlType::Integer]);
    assert_eq!(t.emit_row(&strings(&["n"]), &strings(&["5"])).unwrap(), r#"{"n":5}"#);
}

#[test]
fn a_row_without_fields_is_the_empty_object() {
    let t = table(vec![JsonlType::Integer]);
    assert_eq!(t.emit_row(&strings(&["n"]), &strings(&[])).unwrap(), "{}");
}

#[test]
fn a_row_shorter_than_the_header_emits_the_fields_it_has() {
    let t = table(vec![JsonlType::String, JsonlType::String]);
    assert_eq!(t.emit_row(&strings(&["a", "b"]), &strings(&["x"])).unwrap(), r#"{"a":"x"}"#);
}

#[test]
fn a_row_with_more_fields_than_headers_is_an_error() {
    let t = table(vec![JsonlType::String, JsonlType::String]);
    assert_eq!(
        t.emit_row(&strings(&["a"]), &strings(&["x", "y"])),
        Err(CliError::Other("CSV record has more fields than the header row".to_string()))
    );
}

#[test]
fn header_names_are_used_as_they_stand() {
    let t = table(vec![JsonlType::Integer]);
    assert_eq!(t.emit_row(&strings(&[" Amount "]), &strings(&["5"])).unwrap(), r#"{" Amount ":5}"#);
}

#[test]
fn records_are_trimmed_before_they_are_emitted() {
    let t = table(vec![JsonlType::String, JsonlType::Integer]);
    let records = vec![strings(&["name", "age"]), strings(&["  Ada \t", " 36 "]), strings(&["   ", ""])];
    assert_eq!(
        t.emit_table(&records).unwrap(),
        vec![r#"{"name":"Ada","age":36}"#.to_string(), r#"{"name":null,"age":null}"#.to_string()]
    );
}

#[test]
fn a_table_with_only_a_header_row_gives_no_line() {
    let t = table(vec![JsonlType::String]);
    assert_eq!(t.emit_table(&vec![strings(&["name"])]).unwrap(), Vec::<String>::new());
    assert_eq!(t.emit_table(&vec![]).unwrap(), Vec::<String>::new());
}

#[test]
fn a_table_with_a_record_that_is_too_long_is_an_error() {
    let t = table(vec![JsonlType::String]);
    let records = vec![strings(&["name"]), strings(&["Ada"]), strings(&["Lin", "extra"])];
    assert_eq!(
        t.emit_table(&records),
        Err(CliError::Other("CSV record has more fields than the header row".to_string()))
    );
}

#[test]
fn end_to_end_boolean_column() {
    let schema = entries(
        r#"{"name": {"type": ["string"]}, "active": {"type": ["integer"], "enum": ["1", "0"]}}"#,
    );
    let lines = run(b"name,active\nAda,1\nLin,0\n", b',', &schema).unwrap();
    assert_eq!(
        lines,
        vec![
            r#"{"name":"Ada","active":true}"#.to_string(),
            r#"{"name":"Lin","active":false}"#.to_string(),
        ]
    );
}

#[test]
fn end_to_end_with_another_delimiter_and_quoted_fields() {
    let schema = entries(r#"{"id": {"type": ["integer"]}, "text": {"type": ["string"]}}"#);
    let lines = run(b"id;text\n1;\"a;b\"\n2;\"say \"\"hi\"\"\"\n", b';', &schema).unwrap();
    assert_eq!(
        lines,
        vec![r#"{"id":1,"text":"a;b"}"#.to_string(), r#"{"id":2,"text":"say \"hi\""}"#.to_string()]
    );
}

#[test]
fn end_to_end_without_records() {
    let schema = entries(r#"{"id": {"type": ["integer"]}}"#);
    assert_eq!(run(b"id\n", b',', &schema).unwrap(), Vec::<String>::new());
    assert_eq!(run(b"", b',', &schema).unwrap(), Vec::<String>::new());
}

#[test]
fn end_to_end_a_profile_shorter_than_the_rows() {
    let schema = entries(r#"{"id": {"type": ["integer"]}}"#);
    let lines = run(b"id,extra\n1,x\n", b',', &schema).unwrap();
    assert_eq!(lines, vec![r#"{"id":1,"extra":null}"#.to_string()]);
}

#[test]
fn end_to_end_a_missing_value_in_a_boolean_column_is_false() {
    let schema = entries(r#"{"ok": {"type": ["string", "null"], "enum": ["y", null]}}"#);
    let lines = run(b"ok,n\ny,1\n,2\n", b',', &schema).unwrap();
    assert_eq!(
        lines,
        vec![r#"{"ok":true,"n":null}"#.to_string(), r#"{"ok":false,"n":null}"#.to_string()]
    );
}

#[test]
fn end_to_end_a_malformed_profile_fails_before_the_data_is_read() {
    let schema = entries(r#"{"id": "integer"}"#);
    assert_eq!(
        run(b"id\n1\n", b',', &schema),
        Err(CliError::Other("Cannot create field map".to_string()))
    );
}

#[test]
fn end_to_end_text_that_is_not_utf8_is_a_csv_error() {
    let schema = entries(r#"{"id": {"type": ["string"]}}"#);
    assert!(matches!(run(b"id\n\xff\xfe\n", b',', &schema), Err(CliError::Csv(_))));
}

#[test]
fn converting_twice_gives_the_same_lines() {
    let schema = entries(r#"{"a": {"type": ["string"]}, "b": {"type": ["number"]}}"#);
    let data = b"a,b\nx,1.0\ny,2.5\n";
    assert_eq!(run(data, b',', &schema), run(data, b',', &schema));
}

#[test]
fn the_definitions_of_the_columns_stand_under_properties() {
    let schema = parse_json(
        br#"{"type": "object", "properties": {"properties": {"type": ["string"]}, "n": {}}}"#,
    )
    .unwrap();
    let properties = schema_properties(&schema).unwrap();
    let names: Vec<&str> = properties.iter().map(|e| e.0.as_str()).collect();
    assert_eq!(names, vec!["properties", "n"]);
}

#[test]
fn a_schema_without_properties_is_an_error() {
    let error = Err(CliError::Other("Cannot create field map".to_string()));
    assert_eq!(schema_properties(&parse_json(br#"{"name": {"type": ["string"]}}"#).unwrap()), error);
    assert_eq!(schema_properties(&parse_json(br#"{"properties": [1]}"#).unwrap()), error);
    assert_eq!(schema_properties(&parse_json(b"[]").unwrap()), error);
}
