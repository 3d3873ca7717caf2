use pepper::json::{json_array, json_string, write_integer, write_quoted, JsonValue, ObjectBuilder};
use pepper::json_parser::parse;

fn text(value: &JsonValue) -> String {
    value.to_text()
}

#[test]
fn values_are_written_without_white_space() {
    assert_eq!("null", text(&JsonValue::Null));
    assert_eq!("true", text(&JsonValue::Boolean(true)));
    assert_eq!("false", text(&JsonValue::Boolean(false)));
    assert_eq!("-12", text(&JsonValue::Integer(-12)));
    assert_eq!("0", text(&JsonValue::Integer(0)));
    assert_eq!("-9223372036854775808", text(&JsonValue::Integer(i64::MIN)));
    assert_eq!("9223372036854775807", text(&JsonValue::Integer(i64::MAX)));
    assert_eq!("1.5e3", text(&JsonValue::Float(String::from("1.5e3"))));
    assert_eq!("\"a\\\"b\\\\c\\n\\r\\t\\u0001é\"", text(&json_string("a\"b\\c\n\r\t\u{1}é")));
    assert_eq!("[]", text(&json_array(Vec::new())));
    assert_eq!(
        "[1,\"x\",[null]]",
        text(&json_array(vec![
            JsonValue::Integer(1),
            json_string("x"),
            json_array(vec![JsonValue::Null]),
        ]))
    );
    let mut object = ObjectBuilder::new();
    object.set("a", JsonValue::Integer(1));
    object.set("b c", json_array(vec![JsonValue::Boolean(true)]));
    assert_eq!("{\"a\":1,\"b c\":[true]}", text(&object.build()));
    assert_eq!("{}", text(&ObjectBuilder::new().build()));

    let mut out = String::from(">");
    write_quoted("q\u{1f}", &mut out);
    write_integer(-7, &mut out);
    assert_eq!(">\"q\\u001f\"-7", out);
}

#[test]
fn members_and_elements_are_found() {
    let mut object = ObjectBuilder::new();
    object.set("first", JsonValue::Integer(1));
    object.set("second", json_string("two"));
    object.set("first", JsonValue::Integer(3));
    let object = object.build();
    assert!(matches!(object.get("first"), Some(JsonValue::Integer(1))));
    assert_eq!(Some("two"), object.get("second").and_then(|v| v.as_str()));
    assert!(object.get("third").is_none());
    assert!(object.items().is_none());
    assert!(JsonValue::Null.get("first").is_none());
    assert!(JsonValue::Integer(1).as_str().is_none());
    let array = json_array(vec![JsonValue::Null, JsonValue::Boolean(false)]);
    assert_eq!(2, array.items().unwrap().len());
    assert!(array.get("x").is_none());
}

#[test]
fn texts_are_parsed() {
    assert!(matches!(parse("null"), Ok(JsonValue::Null)));
    assert!(matches!(parse(" true "), Ok(JsonValue::Boolean(true))));
    assert!(matches!(parse("\tfalse\n"), Ok(JsonValue::Boolean(false))));
    assert!(matches!(parse("-120"), Ok(JsonValue::Integer(-120))));
    assert!(matches!(parse("0"), Ok(JsonValue::Integer(0))));
    match parse("2.50E-3") {
        Ok(JsonValue::Float(text)) => assert_eq!("2.50E-3", text),
        _ => panic!("no float"),
    }
    match parse("\"a\\n\\u00e9\\\"\\/\\b\\f\"") {
        Ok(JsonValue::String(text)) => assert_eq!("a\né\"/\u{8}\u{c}", text),
        _ => panic!("no string"),
    }
    let value = parse(" { \"a\" : [ 1 , { \"b\" : null } ] , \"c\" : \"d\" } ").unwrap();
    assert_eq!("{\"a\":[1,{\"b\":null}],\"c\":\"d\"}", text(&value));
    assert_eq!("[]", text(&parse("[ ]").unwrap()));
    assert_eq!("{}", text(&parse("{ }").unwrap()));
}

#[test]
fn what_is_written_is_read_back() {
    for source in [
        "null",
        "[true,false,null,0,-1,\"\"]",
        "{\"k\":{\"k\":{\"k\":[[[\"deep\"]]]}}}",
        "\"\\\"\\\\\\n\\r\\t\\u0000\"",
        "{\"id\":12,\"result\":{\"capabilities\":{\"hoverProvider\":true}}}",
    ] {
        let value = parse(source).unwrap();
        assert_eq!(source, text(&value));
        assert_eq!(source, text(&parse(&text(&value)).unwrap()));
    }
}

#[test]
fn what_is_no_json_is_rejected() {
    for source in [
        "",
        " ",
        "nul",
        "tru",
        "[1,]",
        "[1 2]",
        "{\"a\"}",
        "{\"a\":}",
        "{a:1}",
        "{\"a\":1,}",
        "\"open",
        "\"bad \\x escape\"",
        "\"\\u12\"",
        "\"\\ud800\"",
        "\"\\ud83d\\ude00\"",
        "1 2",
        "1,",
        "[",
        "]",
        "\"a\nb\"",
    ] {
        assert!(parse(source).is_err(), "{:?} was taken for JSON", source);
    }
}

#[test]
fn numbers_that_are_no_whole_numbers_are_kept_as_they_stand() {
    for source in ["1.", "1e", "-", "1.5", "-0.25e+10", "1-2"] {
        match parse(source) {
            Ok(JsonValue::Float(text)) => assert_eq!(source, text),
            _ => panic!("{:?} was not kept", source),
        }
    }
    assert!(matches!(parse("01"), Ok(JsonValue::Integer(1))));
    assert!(matches!(parse("-0"), Ok(JsonValue::Integer(0))));
}

#[test]
fn values_may_nest_only_so_deep() {
    let deep = |n: usize| format!("{}{}", "[".repeat(n), "]".repeat(n));
    assert!(parse(&deep(100)).is_ok());
    assert!(parse(&deep(1000)).is_err());
}

#[test]
fn integers_that_do_not_fit_are_rejected_or_kept_as_floats() {
    assert!(matches!(parse("9223372036854775807"), Ok(JsonValue::Integer(i64::MAX))));
    assert!(matches!(parse("-9223372036854775808"), Ok(JsonValue::Integer(i64::MIN))));
    assert!(!matches!(parse("9223372036854775808"), Ok(JsonValue::Integer(_))));
}
