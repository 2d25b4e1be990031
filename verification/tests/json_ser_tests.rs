use json_ser_from_debug::json_ser;

// These builders emit the fragment stream a pretty debug renderer hands its
// writer, one write per call: the type name and " {\n" for a record, an
// indent run and the field name and ": " per field, quotes around string
// bodies with escapes written one character at a time, "[\n" / "(\n" and
// ",\n" separators for sequences, and scalar text verbatim.

fn push_all(out: &mut Vec<String>, parts: &[&str]) {
    for p in parts {
        out.push(p.to_string());
    }
}

fn string_value(out: &mut Vec<String>, body_pieces: &[&str]) {
    out.push("\"".to_string());
    push_all(out, body_pieces);
    out.push("\"".to_string());
}

fn bool_value(out: &mut Vec<String>, v: bool) {
    out.push(if v { "true" } else { "false" }.to_string());
}

fn open_record(out: &mut Vec<String>, name: &str) {
    out.push(name.to_string());
    out.push(" {\n".to_string());
}

fn field_name(out: &mut Vec<String>, name: &str) {
    out.push("    ".to_string());
    out.push(name.to_string());
    out.push(": ".to_string());
}

fn end_field(out: &mut Vec<String>) {
    out.push(",\n".to_string());
}

fn close_record(out: &mut Vec<String>) {
    out.push("}".to_string());
}

fn basic_record(out: &mut Vec<String>, body_pieces: &[&str]) {
    open_record(out, "Basic");
    field_name(out, "hello");
    string_value(out, body_pieces);
    end_field(out);
    close_record(out);
}

fn t1_record(out: &mut Vec<String>, bool1: bool, middle: &str, bool2: bool, after: &str) {
    open_record(out, "T1");
    field_name(out, "bool1");
    bool_value(out, bool1);
    end_field(out);
    field_name(out, "middle");
    if middle.is_empty() {
        string_value(out, &[]);
    } else {
        string_value(out, &[middle]);
    }
    end_field(out);
    field_name(out, "bool2");
    bool_value(out, bool2);
    end_field(out);
    field_name(out, "after");
    if after.is_empty() {
        string_value(out, &[]);
    } else {
        string_value(out, &[after]);
    }
    end_field(out);
    close_record(out);
}

#[test]
fn basic_works() {
    let mut input = Vec::new();
    basic_record(&mut input, &["world"]);
    let json_str = json_ser::serialize(&input);
    assert_eq!(json_str, r#"{"hello":"world"}"#);
}

#[test]
fn escaping_works() {
    // A string value that is one double quote: the renderer escapes it as a
    // backslash write and a quote write inside the enclosing quotes.
    let mut input = Vec::new();
    basic_record(&mut input, &["\\", "\""]);
    let json_str = json_ser::serialize(&input);
    assert_eq!(json_str, r#"{"hello":"\\""}"#);
}

#[test]
fn pascal_renaming_works() {
    let mut input = Vec::new();
    open_record(&mut input, "Basic2");
    field_name(&mut input, "hello_world");
    string_value(&mut input, &["yes"]);
    end_field(&mut input);
    close_record(&mut input);
    let json_str = json_ser::serialize_with_pascal_case(&input);
    assert_eq!(json_str, r#"{"HelloWorld":"yes"}"#);
}

#[test]
fn bools_work() {
    let mut input = Vec::new();
    t1_record(&mut input, true, "hi", false, "world");
    let json_str = json_ser::serialize(&input);
    assert_eq!(json_str, r#"{"bool1":true,"middle":"hi","bool2":false,"after":"world"}"#);
}

#[test]
fn tuples_work() {
    // Tuples { t: (vec![], "a", Basic { hello: "world" }) }
    let mut input = Vec::new();
    open_record(&mut input, "Tuples");
    field_name(&mut input, "t");
    push_all(&mut input, &["(", "\n", "        "]);
    push_all(&mut input, &["[", "]", ",\n", "        "]);
    string_value(&mut input, &["a"]);
    push_all(&mut input, &[",\n", "        "]);
    basic_record(&mut input, &["world"]);
    push_all(&mut input, &[",\n", "    ", ")"]);
    end_field(&mut input);
    close_record(&mut input);
    let json_str = json_ser::serialize(&input);
    assert_eq!(json_str, r#"{"t":[[],"a",{"hello":"world"}]}"#);
}

#[test]
fn lists_work() {
    // Lists { l1: two T1 records, l2: (two T1 records, "a", one T1, three strings) }
    let mut input = Vec::new();
    open_record(&mut input, "Lists");
    field_name(&mut input, "l1");
    push_all(&mut input, &["[", "\n", "        "]);
    t1_record(&mut input, true, "", true, "");
    push_all(&mut input, &[",\n", "        "]);
    t1_record(&mut input, false, "", false, "");
    push_all(&mut input, &[",\n", "    ", "]"]);
    end_field(&mut input);
    field_name(&mut input, "l2");
    push_all(&mut input, &["(", "\n", "        "]);
    push_all(&mut input, &["[", "\n", "            "]);
    t1_record(&mut input, true, "", true, "");
    push_all(&mut input, &[",\n", "            "]);
    t1_record(&mut input, false, "", false, "");
    push_all(&mut input, &[",\n", "        ", "]"]);
    push_all(&mut input, &[",\n", "        "]);
    string_value(&mut input, &["a"]);
    push_all(&mut input, &[",\n", "        "]);
    t1_record(&mut input, true, "hi", false, "world");
    push_all(&mut input, &[",\n", "        "]);
    push_all(&mut input, &["[", "\n", "            "]);
    string_value(&mut input, &["x"]);
    push_all(&mut input, &[",\n", "            "]);
    string_value(&mut input, &["y"]);
    push_all(&mut input, &[",\n", "            "]);
    string_value(&mut input, &["z"]);
    push_all(&mut input, &[",\n", "        ", "]"]);
    push_all(&mut input, &[",\n", "    ", ")"]);
    end_field(&mut input);
    close_record(&mut input);
    let json_str = json_ser::serialize(&input);
    assert_eq!(
        json_str,
        r#"{"l1":[{"bool1":true,"middle":"","bool2":true,"after":""},{"bool1":false,"middle":"","bool2":false,"after":""}],"l2":[[{"bool1":true,"middle":"","bool2":true,"after":""},{"bool1":false,"middle":"","bool2":false,"after":""}],"a",{"bool1":true,"middle":"hi","bool2":false,"after":"world"},["x","y","z"]]}"#
    );
}

#[test]
fn nested_works() {
    let mut input = Vec::new();
    open_record(&mut input, "Nested");
    field_name(&mut input, "nest");
    basic_record(&mut input, &["world"]);
    end_field(&mut input);
    close_record(&mut input);
    let json_str = json_ser::serialize(&input);
    assert_eq!(json_str, r#"{"nest":{"hello":"world"}}"#);
}

fn variant_frags() -> Vec<String> {
    // Ee::Variant1("hi") renders as a capitalized tag and a tuple body.
    let mut input = Vec::new();
    push_all(&mut input, &["Variant1", "(", "\n", "    "]);
    string_value(&mut input, &["hi"]);
    push_all(&mut input, &[",\n", ")"]);
    input
}

#[test]
#[should_panic]
fn enums_dont_work() {
    let json_str = json_ser::serialize(&variant_frags());
    assert!(!json_str.is_empty());
}

#[test]
fn variant_output_is_not_its_json() {
    let json_str = json_ser::serialize(&variant_frags());
    // A tagged variant is unsupported: its fragments all fail the
    // classifier, so nothing is emitted, rather than any JSON document
    // carrying the variant's data.
    assert_ne!(json_str, r#"{"Variant1":"hi"}"#);
    assert_eq!(json_str, "");
}

#[test]
fn nested_variant_output_is_not_its_json() {
    // Holder { e: Ee::Variant1("hi") }: the tag is dropped everywhere; the
    // variant's tuple body is transcoded best-effort as a list, so the
    // output is unspecified malformed-for-the-type text, never a JSON
    // rendering of the variant itself.
    let mut input = Vec::new();
    open_record(&mut input, "Holder");
    field_name(&mut input, "e");
    for p in ["Variant1", "(", "\n", "    "] {
        input.push(p.to_string());
    }
    string_value(&mut input, &["hi"]);
    for p in [",\n", ")"] {
        input.push(p.to_string());
    }
    end_field(&mut input);
    close_record(&mut input);
    let json_str = json_ser::serialize(&input);
    assert_ne!(json_str, r#"{"e":{"Variant1":"hi"}}"#);
    assert_ne!(json_str, r#"{"e":"hi"}"#);
    assert_eq!(json_str, r#"{"e":["hi"]}"#);
}
