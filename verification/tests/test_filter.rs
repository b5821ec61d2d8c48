use tabjson::cmd::json::run;
use tabjson::error::CliError;
use tabjson::filter::{apply_filter, decide_outputs, has_least_integer, is_admitted, FilterFailure};
use tabjson::value::{parse_json, JsonValue};

fn json(text: &str) -> JsonValue {
    parse_json(text.as_bytes()).unwrap()
}

#[test]
fn paths_and_constructions_are_admitted() {
    for filter in [
        ".",
        ".data",
        ".data[]",
        ".[0]",
        ".[1:3]",
        ".[] | {name: .n.first, age}",
        "[.[] | .a]",
        ".a // \"none\"",
        ".a / 2",
        ".a < 3",
        "if .a then .b else .c end",
        "..",
        "try .a catch .",
        "reduce .[] as $x (0; $x)",
        ".default",
        ".defined , .undef, ._def, .xdefy",
        "",
    ] {
        assert!(is_admitted(filter), "{filter}");
    }
}

#[test]
fn definitions_are_not_admitted() {
    for filter in ["def f: f; f", "def f: .; f", ".a | def g: 1; g", "1def f: .; f", "(def f: .; f)", ".def", "def"] {
        assert!(!is_admitted(filter), "{filter}");
    }
}

#[test]
fn assignments_and_integer_arithmetic_are_not_admitted() {
    for filter in [
        ".a = 1",
        ".a |= 1",
        "(.a // .b) |= 1",
        ".a += 1",
        ".a == 1",
        ".a != 1",
        ".a <= 1",
        ".a + 1",
        ".a - 1",
        ".[-1]",
        ".a * 2",
        ".a % 2",
        "\"\\(.a = 1)\"",
        "1e+5",
    ] {
        assert!(!is_admitted(filter), "{filter}");
    }
}

#[test]
fn a_filter_outside_the_fragment_is_refused_before_it_runs() {
    let value = json(r#"{"a": 1}"#);
    assert_eq!(apply_filter("def f: f; f", &value), Err(FilterFailure::Unsupported));
    assert_eq!(apply_filter("(.a // .b) |= 1", &value), Err(FilterFailure::Unsupported));
    assert_eq!(apply_filter(".a + 9223372036854775807", &value), Err(FilterFailure::Unsupported));
    assert_eq!(
        run(json(r#"{"a": 1}"#), Some(".a |= 2")),
        Err(CliError::Other("Unsupported jaq filter: .a |= 2".to_string()))
    );
}

#[test]
fn the_least_integer_is_found_wherever_it_stands() {
    let least = isize::MIN;
    assert!(has_least_integer(&json(&format!("{least}"))));
    assert!(has_least_integer(&json(&format!(r#"[1, {{"a": [{{"b": {least}}}]}}]"#))));
    assert!(!has_least_integer(&json(&format!(r#"[1, -1, 0, {}, "{least}", 2.5, null]"#, least + 1))));
    assert!(!has_least_integer(&json("18446744073709551615")));
}

#[test]
fn a_document_with_the_least_integer_is_refused_before_the_filter_runs() {
    let text = format!(r#"{{"a": [1, 2], "i": {}}}"#, isize::MIN);
    assert_eq!(apply_filter(".a[.i]", &json(&text)), Err(FilterFailure::LeastInteger));
    let flat = format!(r#"{{"i": {}}}"#, isize::MIN);
    assert_eq!(
        run(json(&flat), Some(".")),
        Err(CliError::Other("JSON data holds an integer that a jaq filter cannot take".to_string()))
    );
    assert_eq!(
        String::from_utf8(run(json(&flat), None).unwrap()).unwrap(),
        format!("i\n{}\n", isize::MIN)
    );
}

#[test]
fn a_filter_yields_its_outputs_in_order() {
    let value = json(r#"{"a": [1, "x", null, 2.5, {"k": [true]}]}"#);
    assert_eq!(
        apply_filter(".a[]", &value),
        Ok(vec![json("1"), json("\"x\""), json("null"), json("2.5"), json(r#"{"k": [true]}"#)])
    );
    assert_eq!(apply_filter(".a", &value), Ok(vec![json(r#"[1, "x", null, 2.5, {"k": [true]}]"#)]));
    assert_eq!(apply_filter(".a[0], .a[1]", &value), Ok(vec![json("1"), json("\"x\"")]));
    assert_eq!(apply_filter(".a[7]", &value), Ok(vec![json("null")]));
    assert_eq!(apply_filter(".a[5:]", &value), Ok(vec![json("[]")]));
}

#[test]
fn an_output_keeps_the_order_of_its_keys() {
    let value = json(r#"{"z": 1, "a": 2}"#);
    assert_eq!(apply_filter("{a, z}", &value), Ok(vec![json(r#"{"a": 2, "z": 1}"#)]));
    assert_eq!(apply_filter(".", &value), Ok(vec![json(r#"{"z": 1, "a": 2}"#)]));
}

#[test]
fn a_division_by_zero_yields_null() {
    assert_eq!(apply_filter(".a / 0", &json(r#"{"a": 1}"#)), Ok(vec![json("null")]));
}

#[test]
fn a_number_that_is_no_json_number_is_an_evaluation_failure() {
    let value = json("null");
    for filter in ["1e1000", "1.", "[1, {\"a\": 2.}]"] {
        match apply_filter(filter, &value) {
            Err(FilterFailure::Evaluate(_)) => {}
            other => panic!("{filter}: {:?}", other),
        }
    }
    assert_eq!(apply_filter("1.5, 2", &value), Ok(vec![json("1.5"), json("2")]));
}

#[test]
fn the_first_failing_output_ends_the_stage() {
    let value = json(r#"[{"a": 1}, 2, {"a": 3}]"#);
    assert_eq!(
        apply_filter(".[] | .a", &value),
        Err(FilterFailure::Evaluate("cannot use 2 as iterable (array or object)".to_string()))
    );
    assert_eq!(apply_filter(".[] | .a?", &value), Ok(vec![json("1"), json("3")]));
}

#[test]
fn failures_to_parse_and_to_compile() {
    let value = json("null");
    assert_eq!(apply_filter(".[", &value), Err(FilterFailure::Parse));
    assert_eq!(apply_filter("", &value), Err(FilterFailure::Parse));
    assert_eq!(apply_filter("length", &value), Err(FilterFailure::Compile));
    assert_eq!(apply_filter("$x", &value), Err(FilterFailure::Compile));
}

#[test]
fn outcomes_without_an_error_are_the_values() {
    assert_eq!(decide_outputs(vec![Ok(json("1")), Ok(json("[2]"))]), Ok(vec![json("1"), json("[2]")]));
    assert_eq!(decide_outputs(vec![]), Ok(vec![]));
}

#[test]
fn the_first_error_decides() {
    assert_eq!(
        decide_outputs(vec![Ok(json("1")), Err("first".to_string()), Ok(json("2")), Err("second".to_string())]),
        Err(FilterFailure::Evaluate("first".to_string()))
    );
    assert_eq!(
        decide_outputs(vec![Err("only".to_string())]),
        Err(FilterFailure::Evaluate("only".to_string()))
    );
}
