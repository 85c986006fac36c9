use kelora::event::Event;
use kelora::formatters::{escape_quotes, format_default, DefaultFormatter, Formatter};
use kelora::parsers::{JsonlParser, LogParser, LogfmtParser};
use kelora::pipeline::prepare_levels_filter;
use kelora::stats::format_duration;
use kelora::value::{parse_field_value, FieldValue, NumValue};

#[test]
fn test_default_formatter_empty_event() {
    let event = Event::new();
    let formatter = DefaultFormatter::new();
    assert_eq!(formatter.format(&event), "");
}

#[test]
fn test_default_formatter_with_fields() {
    let mut event = Event::new();
    event.level = Some("INFO".to_string());
    event.message = Some("Test message".to_string());
    event.set_field("key1".to_string(), FieldValue::Text("value1".to_string()));
    event.set_field("key2".to_string(), FieldValue::Number(NumValue::Int(42)));

    let formatter = DefaultFormatter::new();
    let result = formatter.format(&event);

    assert!(result.contains("level=\"INFO\""));
    assert!(result.contains("message=\"Test message\""));
    assert!(result.contains("key1=\"value1\""));
    assert!(result.contains("key2=42"));
}

#[test]
fn test_number_formatting() {
    let mut event = Event::new();
    event.set_field("int".to_string(), parse_field_value("42"));
    event.set_field("float".to_string(), parse_field_value("42.5"));

    let formatter = DefaultFormatter::new();
    let result = formatter.format(&event);

    assert!(result.contains("int=42"));
    assert!(result.contains("float=42.5"));
}

#[test]
fn test_escape_quotes() {
    assert_eq!(escape_quotes("hello"), "hello");
    assert_eq!(escape_quotes("hello \"world\""), "hello \\\"world\\\"");
    assert_eq!(escape_quotes("path\\to\\file"), "path\\\\to\\\\file");
}

#[test]
fn test_format_duration() {
    assert_eq!(format_duration(3661), "1h1m1s");
    assert_eq!(format_duration(61), "1m1s");
    assert_eq!(format_duration(30), "30s");
}

#[test]
fn test_prepare_levels_filter() {
    let levels = vec!["error".to_string(), "warn".to_string()];
    let result = prepare_levels_filter(&levels);
    assert_eq!(result, Some(vec!["ERROR".to_string(), "WARN".to_string()]));

    let empty_levels: Vec<String> = vec![];
    let result = prepare_levels_filter(&empty_levels);
    assert_eq!(result, None);
}

#[test]
fn test_logfmt_parser_basic() {
    let parser = LogfmtParser::new();
    let result = parser.parse(r#"level=info msg="test message" count=42"#).unwrap();

    assert_eq!(result.level, Some("info".to_string()));
    assert_eq!(result.message, Some("test message".to_string()));
    assert!(matches!(
        result.get_field("count"),
        Some(FieldValue::Number(NumValue::Int(42)))
    ));
}

#[test]
fn test_logfmt_parser_quoted_values() {
    let parser = LogfmtParser::new();
    let result = parser.parse(r#"msg="hello world" path="/tmp/file""#).unwrap();

    assert_eq!(result.message, Some("hello world".to_string()));
    assert!(matches!(result.get_field("path"), Some(FieldValue::Text(s)) if s == "/tmp/file"));
}

#[test]
fn test_jsonl_parser_basic() {
    let parser = JsonlParser::new();
    let result = parser.parse(r#"{"level":"info","message":"test","count":42}"#).unwrap();

    assert_eq!(result.level, Some("info".to_string()));
    assert_eq!(result.message, Some("test".to_string()));
    assert!(matches!(
        result.get_field("count"),
        Some(FieldValue::Number(NumValue::Int(42)))
    ));
}

#[test]
fn test_parse_field_value() {
    assert!(matches!(parse_field_value("null"), FieldValue::Null));
    assert!(matches!(parse_field_value("true"), FieldValue::Boolean(true)));
    assert!(matches!(parse_field_value("false"), FieldValue::Boolean(false)));
    assert!(matches!(
        parse_field_value("42"),
        FieldValue::Number(NumValue::Int(42))
    ));
    assert!(matches!(
        parse_field_value("42.5"),
        FieldValue::Number(NumValue::Dec(d, _)) if d == "42.5"
    ));
    assert!(matches!(parse_field_value("hello"), FieldValue::Text(s) if s == "hello"));
}

#[test]
fn test_coerce_float_not_raw_text() {
    // the double goes through the parse, not back out unchanged
    match parse_field_value("4.50") {
        FieldValue::Number(NumValue::Dec(display, json)) => {
            assert_eq!(display, "4.5");
            assert_eq!(json, "4.5");
        }
        other => panic!("expected a decimal number, got {:?}", value_kind(&other)),
    }
    match parse_field_value("1e3") {
        FieldValue::Number(NumValue::Dec(display, _)) => assert_eq!(display, "1000"),
        _ => panic!("expected a decimal number"),
    }
}

fn value_kind(v: &FieldValue) -> &'static str {
    match v {
        FieldValue::Text(_) => "text",
        FieldValue::Number(NumValue::Int(_)) => "int",
        FieldValue::Number(NumValue::Dec(_, _)) => "dec",
        FieldValue::Boolean(_) => "bool",
        FieldValue::Null => "null",
    }
}

#[test]
fn test_int_limits() {
    assert!(matches!(
        parse_field_value("9223372036854775807"),
        FieldValue::Number(NumValue::Int(i64::MAX))
    ));
    assert!(matches!(
        parse_field_value("-9223372036854775808"),
        FieldValue::Number(NumValue::Int(i64::MIN))
    ));
    // one past the range falls through to the double path
    assert!(matches!(
        parse_field_value("9223372036854775808"),
        FieldValue::Number(NumValue::Dec(_, _))
    ));
}

#[test]
fn test_logfmt_formatter_sorts_remaining_keys() {
    let mut event = Event::new();
    event.set_field("zebra".to_string(), FieldValue::Number(NumValue::Int(1)));
    event.set_field("alpha".to_string(), FieldValue::Number(NumValue::Int(2)));
    event.set_field("mid".to_string(), FieldValue::Number(NumValue::Int(3)));
    let out = format_default(&event);
    assert_eq!(out, "alpha=2 mid=3 zebra=1");
}

#[test]
fn test_logfmt_formatter_escapes_message() {
    let mut event = Event::new();
    event.message = Some("say \"hi\" \\ bye".to_string());
    let out = format_default(&event);
    assert_eq!(out, "message=\"say \\\"hi\\\" \\\\ bye\"");
}
