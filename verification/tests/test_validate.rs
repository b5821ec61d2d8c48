use tabjson::cmd::tojsonl;
use tabjson::error::CliError;
use tabjson::value::{parse_json, JsonValue};

fn csv_text(rows: Vec<Vec<&str>>) -> Vec<u8> {
    let mut writer = csv::WriterBuilder::new().flexible(true).from_writer(Vec::new());
    for row in rows {
        writer.write_record(row).unwrap();
    }
    writer.into_inner().unwrap()
}

fn properties(text: &str) -> Vec<(String, JsonValue)> {
    match parse_json(text.as_bytes()).unwrap() {
        JsonValue::Object(entries) => entries,
        other => panic!("not an object: {:?}", other),
    }
}

// What makes CSV text valid to the converter: every record has as many fields as the
// header row. A valid table is converted; a ragged one is refused by the CSV reader.

#[test]
fn validate_good_csv() {
    let data = csv_text(vec![
        vec!["title", "name", "age"],
        vec!["Professor", "Xaviers", "60"],
        vec!["Prisoner", "Magneto", "90"],
        vec!["First Class Student", "Iceman", "14"],
    ]);
    let schema = properties(
        r#"{"title":{"type":["string"]},"name":{"type":["string"]},"age":{"type":["integer"]}}"#,
    );

    let lines = tojsonl::run(&data, b',', &schema).unwrap();

    assert_eq!(
        lines,
        vec![
            r#"{"title":"Professor","name":"Xaviers","age":60}"#.to_string(),
            r#"{"title":"Prisoner","name":"Magneto","age":90}"#.to_string(),
            r#"{"title":"First Class Student","name":"Iceman","age":14}"#.to_string(),
        ]
    );
}

#[test]
fn validate_bad_csv() {
    let data = csv_text(vec![
        vec!["title", "name", "age"],
        vec!["Professor", "Xaviers", "60"],
        vec!["Magneto", "90"],
        vec!["First Class Student", "Iceman", "14"],
    ]);
    let schema = properties(
        r#"{"title":{"type":["string"]},"name":{"type":["string"]},"age":{"type":["integer"]}}"#,
    );

    let result = tojsonl::run(&data, b',', &schema);

    assert!(matches!(result, Err(CliError::Csv(_))));
}
