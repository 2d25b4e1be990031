use json_ser_from_debug::chars;
use json_ser_from_debug::json_ser;

fn frags(parts: &[&str]) -> Vec<String> {
    parts.iter().map(|p| p.to_string()).collect()
}

#[test]
fn whitespace_around_fragments_is_trimmed() {
    let input = frags(&["  {  ", "\n    hello", " : ", "\"", "hi", "\"", ",\n", "}"]);
    let json_str = json_ser::serialize(&input);
    assert_eq!(json_str, r#"{"hello":"hi"}"#);
}

#[test]
fn numbers_pass_through_verbatim() {
    let input = frags(&["{", "value", ":", "-2.5e10", ",", "}"]);
    let json_str = json_ser::serialize(&input);
    assert_eq!(json_str, r#"{"value":-2.5e10}"#);
}

#[test]
fn integer_fields_work() {
    let input = frags(&["{", "count", ":", "42", ",", "other", ":", "7", ",", "}"]);
    let json_str = json_ser::serialize(&input);
    assert_eq!(json_str, r#"{"count":42,"other":7}"#);
}

#[test]
fn malformed_number_is_dropped() {
    let input = frags(&["{", "value", ":", "--5", "}"]);
    let json_str = json_ser::serialize(&input);
    // The fragment fails the number grammar and is dropped; with the value
    // slot still open, the closing brace is not acceptable either, so the
    // best-effort buffer stays truncated.
    assert_eq!(json_str, r#"{"value":"#);
}

#[test]
fn capitalized_token_is_not_a_field_name() {
    let input = frags(&["{", "Basic", ",", "hello", ":", "true", "}"]);
    let json_str = json_ser::serialize(&input);
    assert_eq!(json_str, r#"{"hello":true}"#);
}

#[test]
fn custom_renaming_applies_to_every_field() {
    let input = frags(&["{", "first", ":", "true", ",", "second", ":", "false", "}"]);
    let json_str =
        json_ser::serialize_with_renamed_fields(&input, |s: &str| format!("key_{}", s));
    assert_eq!(json_str, r#"{"key_first":true,"key_second":false}"#);
}

#[test]
fn pascal_case_many_underscores() {
    let input = frags(&["{", "hello_world_again", ":", "1", "}"]);
    let json_str = json_ser::serialize_with_pascal_case(&input);
    assert_eq!(json_str, r#"{"HelloWorldAgain":1}"#);
}

#[test]
fn pascal_case_direct_matches_renamed_output() {
    // Round trip of the renaming policy: the key in the output is the same
    // text the transform gives on the bare name.
    let name = "outer_field";
    let direct = chars::pascal_case(name);
    assert_eq!(direct, "OuterField");
    let input = frags(&["{", name, ":", "true", "}"]);
    let json_str = json_ser::serialize_with_pascal_case(&input);
    assert_eq!(json_str, format!("{}\"{}\":true{}", "{", direct, "}"));
}

#[test]
fn aggregator_feed_and_finalize() {
    let mut agg = json_ser::JsonCommandAggregator::new(|s: &str| s.to_string());
    for piece in ["{", "flag", ":", "true", ",", "}"] {
        agg.feed(piece);
    }
    let json_str = agg.finalize();
    assert_eq!(json_str, r#"{"flag":true}"#);
}

#[test]
fn finalize_mid_parse_returns_prefix() {
    let mut agg = json_ser::JsonCommandAggregator::new(|s: &str| s.to_string());
    agg.feed("{");
    agg.feed("open");
    let json_str = agg.finalize();
    assert_eq!(json_str, r#"{"open":"#);
}

#[test]
fn empty_stream_gives_empty_output() {
    let json_str = json_ser::serialize(&Vec::new());
    assert_eq!(json_str, "");
}

#[test]
fn structure_after_scalar_in_list() {
    // After a completed scalar, an object or list may open: the comma rule
    // fires off the digit or the final letter of the literal.
    let input = frags(&[
        "{", "l", ":", "[", "1", ",", "Inner", " {", "flag", ":", "true", ",", "}", ",", "[",
        "]", ",", "]", "}",
    ]);
    let json_str = json_ser::serialize(&input);
    assert_eq!(json_str, r#"{"l":[1,{"flag":true},[]]}"#);
}

#[test]
fn lone_backslash_escapes_next_fragment() {
    let input = frags(&["{", "path", ":", "\"", "\\", "n", "\"", "}"]);
    let json_str = json_ser::serialize(&input);
    assert_eq!(json_str, "{\"path\":\"\\\\n\"}");
}
