use jqesque::{
    insert_value, merge_json, parse_input, Jqesque, JqesqueError, Operation, PathToken, Separator,
};
use serde_json::Value;

fn doc(text: &str) -> Value {
    serde_json::from_str(text).unwrap()
}

fn insert_into_null(input: &str, separator: Separator) -> Value {
    let parsed = Jqesque::from_str_with_separator(input, separator).expect("parse");
    let mut json_obj = Value::Null;
    parsed.apply_to(&mut json_obj).unwrap();
    json_obj
}

fn apply(input: &str, separator: Separator, start: &str) -> (Result<Operation, JqesqueError>, Value) {
    let parsed = Jqesque::from_str_with_separator(input, separator).expect("parse");
    let mut json_obj = doc(start);
    let r = parsed.apply_to(&mut json_obj);
    (r, json_obj)
}

const ADD_BASE: &str = r#"{"parent":{"child":{}},"array":[1,2,3]}"#;
const REPLACE_BASE: &str =
    r#"{"parent":{"child":{"key":"old_value"}},"array":[1,2,3],"root":"root_value"}"#;
const REMOVE_BASE: &str = r#"{"existing_key":"value","array":[1,2,3],"nested":{"key":"value","array":[1,2,3]}}"#;
const AUTO_BASE: &str = r#"{"existing_key":"old_value","array":[1,2,3]}"#;

#[test]
fn default_separator_simple_key() {
    let parsed: Jqesque = "key=value".parse().unwrap();
    let mut json_obj = Value::Null;
    parsed.apply_to(&mut json_obj).unwrap();
    assert_eq!(json_obj, doc(r#"{"key":"value"}"#));
}

#[test]
fn default_separator_nested_keys() {
    let parsed: Jqesque = "parent.child=value".parse().unwrap();
    let mut json_obj = Value::Null;
    parsed.apply_to(&mut json_obj).unwrap();
    assert_eq!(json_obj, doc(r#"{"parent":{"child":"value"}}"#));
}

#[test]
fn insert_simple_key() {
    assert_eq!(insert_into_null(">key=value", Separator::Dot), doc(r#"{"key":"value"}"#));
}

#[test]
fn insert_nested_keys() {
    assert_eq!(
        insert_into_null(">parent.child=value", Separator::Dot),
        doc(r#"{"parent":{"child":"value"}}"#)
    );
}

#[test]
fn insert_array_index() {
    assert_eq!(insert_into_null(">array[0]=1", Separator::Dot), doc(r#"{"array":[1]}"#));
}

#[test]
fn insert_nested_array() {
    assert_eq!(
        insert_into_null(">array[0][1]=2", Separator::Dot),
        doc(r#"{"array":[[null,2]]}"#)
    );
}

#[test]
fn insert_custom_separator() {
    assert_eq!(
        insert_into_null(">key1/key2=value", Separator::Slash),
        doc(r#"{"key1":{"key2":"value"}}"#)
    );
}

#[test]
fn insert_with_custom_char_separator() {
    assert_eq!(
        insert_into_null(">a:b=1", Separator::Custom(':')),
        doc(r#"{"a":{"b":1}}"#)
    );
}

#[test]
fn insert_quoted_key() {
    assert_eq!(
        insert_into_null(">\"complex.key\"=123", Separator::Dot),
        doc(r#"{"complex.key":123}"#)
    );
}

#[test]
fn insert_bool_value() {
    assert_eq!(insert_into_null(">flag=true", Separator::Dot), doc(r#"{"flag":true}"#));
}

#[test]
fn insert_null_value() {
    assert_eq!(insert_into_null(">nothing=null", Separator::Dot), doc(r#"{"nothing":null}"#));
}

#[test]
fn insert_number_value() {
    assert_eq!(insert_into_null(">number=42", Separator::Dot), doc(r#"{"number":42}"#));
}

#[test]
fn insert_float_value() {
    assert_eq!(insert_into_null(">pi=3.14", Separator::Dot), doc(r#"{"pi":3.14}"#));
}

#[test]
fn insert_complex_path() {
    assert_eq!(
        insert_into_null(">foo[1].bar[2]=value", Separator::Dot),
        doc(r#"{"foo":[null,{"bar":[null,null,"value"]}]}"#)
    );
}

#[test]
fn insert_key_with_spaces() {
    assert_eq!(
        insert_into_null(">\"key with spaces\"=value", Separator::Dot),
        doc(r#"{"key with spaces":"value"}"#)
    );
}

#[test]
fn insert_array_of_objects() {
    assert_eq!(
        insert_into_null(">items[0].name=Item1", Separator::Dot),
        doc(r#"{"items":[{"name":"Item1"}]}"#)
    );
}

#[test]
fn insert_empty_string_value() {
    assert_eq!(insert_into_null(">empty=\"\"", Separator::Dot), doc(r#"{"empty":""}"#));
}

#[test]
fn insert_special_chars_in_key() {
    assert_eq!(
        insert_into_null(">\"key!@#$%^&*()\"=value", Separator::Dot),
        doc(r#"{"key!@#$%^&*()":"value"}"#)
    );
}

#[test]
fn insert_unicode_key() {
    assert_eq!(
        insert_into_null(">\"ключ\"=значение", Separator::Dot),
        doc(r#"{"ключ":"значение"}"#)
    );
}

#[test]
fn insert_multiple_arrays() {
    assert_eq!(
        insert_into_null(">a[0][1][2]=value", Separator::Dot),
        doc(r#"{"a":[[null,[null,null,"value"]]]}"#)
    );
}

#[test]
fn insert_example_from_readme() {
    assert_eq!(
        insert_into_null(">foo.bar[0].baz=true", Separator::Dot),
        doc(r#"{"foo":{"bar":[{"baz":true}]}}"#)
    );
}

#[test]
fn insert_array_literal() {
    assert_eq!(insert_into_null(">arr=[1,2,3]", Separator::Dot), doc(r#"{"arr":[1,2,3]}"#));
    assert_eq!(
        insert_into_null(">arr=[\"a\",\"b\",\"c\"]", Separator::Dot),
        doc(r#"{"arr":["a","b","c"]}"#)
    );
}

#[test]
fn insert_overwrites_existing_object() {
    let (r, out) = apply(
        ">settings.theme={\"color\":\"blue\",\"font\":\"Helvetica\"}",
        Separator::Dot,
        r#"{"settings":{"theme":{"color":"red","font":"Arial","size":12}}}"#,
    );
    assert_eq!(r.unwrap(), Operation::Insert);
    assert_eq!(out, doc(r#"{"settings":{"theme":{"color":"blue","font":"Helvetica"}}}"#));
}

#[test]
fn insert_replaces_mismatched_container() {
    let (r, out) = apply(">a[1]=x", Separator::Dot, r#"{"a":{"k":1}}"#);
    assert_eq!(r.unwrap(), Operation::Insert);
    assert_eq!(out, doc(r#"{"a":[null,"x"]}"#));
}

#[test]
fn insert_twice_equals_once() {
    let parsed = Jqesque::from_str_with_separator(">a.b[2]=7", Separator::Dot).unwrap();
    let mut once = doc(r#"{"a":{"b":[1],"c":2}}"#);
    parsed.apply_to(&mut once).unwrap();
    let mut twice = once.clone();
    parsed.apply_to(&mut twice).unwrap();
    assert_eq!(once, twice);
    assert_eq!(once, doc(r#"{"a":{"b":[1,null,7],"c":2}}"#));
}

#[test]
fn insert_then_pointer_resolves_value() {
    let parsed = Jqesque::from_str_with_separator(">x[1].y=5", Separator::Dot).unwrap();
    let mut json_obj = Value::Null;
    parsed.apply_to(&mut json_obj).unwrap();
    let pointer = parsed.tokens_to_pointer();
    assert_eq!(pointer, "/x/1/y");
    assert_eq!(json_obj.pointer(&pointer), Some(&doc("5")));
}

#[test]
fn merge_keeps_existing_members() {
    let (r, out) = apply(
        "~settings.theme={\"color\":\"blue\",\"font\":\"Helvetica\"}",
        Separator::Dot,
        r#"{"settings":{"theme":{"color":"red","font":"Arial","size":12}}}"#,
    );
    assert_eq!(r.unwrap(), Operation::Merge);
    assert_eq!(
        out,
        doc(r#"{"settings":{"theme":{"color":"blue","font":"Helvetica","size":12}}}"#)
    );
}

#[test]
fn merge_preserves_untouched_siblings() {
    let mut a = doc(r#"{"x":{"p":1,"q":2}}"#);
    let mut b = doc(r#"{"x":{"p":9}}"#);
    merge_json(&mut a, &mut b);
    assert_eq!(a, doc(r#"{"x":{"p":9,"q":2}}"#));
}

#[test]
fn merge_array_extends_but_does_not_truncate() {
    let mut a = doc("[1,2,3]");
    let mut b = doc("[1]");
    merge_json(&mut a, &mut b);
    assert_eq!(a, doc("[1,2,3]"));
    let mut a = doc("[1,2,3]");
    let mut b = doc("[9]");
    merge_json(&mut a, &mut b);
    assert_eq!(a, doc("[9,2,3]"));
    let mut a = doc("[1]");
    let mut b = doc("[5,6,7]");
    merge_json(&mut a, &mut b);
    assert_eq!(a, doc("[5,6,7]"));
}

#[test]
fn merge_scalar_replaces_and_null_overwrites() {
    let mut a = doc(r#"{"k":{"deep":1},"n":3}"#);
    let mut b = doc(r#"{"k":5,"n":null}"#);
    merge_json(&mut a, &mut b);
    assert_eq!(a, doc(r#"{"k":5,"n":null}"#));
    assert_eq!(b, Value::Null);
}

#[test]
fn merge_json_new_keys() {
    let mut a = doc(r#"{"key":"value"}"#);
    let mut b = doc(r#"{"key2":"value2"}"#);
    merge_json(&mut a, &mut b);
    assert_eq!(a, doc(r#"{"key":"value","key2":"value2"}"#));
}

#[test]
fn merge_json_nested_keys() {
    let mut a = doc(r#"{"key":"value"}"#);
    let mut b = doc(r#"{"parent":{"child":"value"}}"#);
    merge_json(&mut a, &mut b);
    assert_eq!(a, doc(r#"{"key":"value","parent":{"child":"value"}}"#));
}

#[test]
fn merge_json_nested_array() {
    let mut a = doc(r#"{"key":"value"}"#);
    let mut b = doc(r#"{"array":[1]}"#);
    merge_json(&mut a, &mut b);
    assert_eq!(a, doc(r#"{"key":"value","array":[1]}"#));
}

#[test]
fn insert_value_empty_path() {
    let mut json_obj = Value::Null;
    insert_value(&mut json_obj, &[], &Some(doc("\"value\"")));
    assert_eq!(json_obj, doc("\"value\""));
}

#[test]
fn insert_value_keys() {
    let mut json_obj = Value::Null;
    let tokens = vec![PathToken::Key("key2".to_string()), PathToken::Key("key3".to_string())];
    insert_value(&mut json_obj, &tokens, &Some(doc("\"value\"")));
    assert_eq!(json_obj, doc(r#"{"key2":{"key3":"value"}}"#));
}

#[test]
fn insert_value_absent_writes_null() {
    let mut json_obj = doc(r#"{"a":1}"#);
    let tokens = vec![PathToken::Key("a".to_string())];
    insert_value(&mut json_obj, &tokens, &None);
    assert_eq!(json_obj, doc(r#"{"a":null}"#));
}

#[test]
fn add_to_existing_object() {
    let (r, out) = apply("+parent.child.key=value", Separator::Dot, ADD_BASE);
    assert_eq!(r.unwrap(), Operation::Add);
    assert_eq!(out, doc(r#"{"parent":{"child":{"key":"value"}},"array":[1,2,3]}"#));
}

#[test]
fn add_to_existing_array() {
    let (r, out) = apply("+array/1=42", Separator::Slash, ADD_BASE);
    assert_eq!(r.unwrap(), Operation::Add);
    assert_eq!(out, doc(r#"{"parent":{"child":{}},"array":[1,42,2,3]}"#));
}

#[test]
fn add_to_end_of_array() {
    let (r, out) = apply("+array/-=99", Separator::Slash, ADD_BASE);
    assert_eq!(r.unwrap(), Operation::Add);
    assert_eq!(out, doc(r#"{"parent":{"child":{}},"array":[1,2,3,99]}"#));
}

#[test]
fn add_failures_leave_document() {
    for input in ["+nonexistent.key=value", "+nonexistent_array/0=value", "+array/10=value"] {
        let sep = if input.contains('/') { Separator::Slash } else { Separator::Dot };
        let (r, out) = apply(input, sep, ADD_BASE);
        assert!(matches!(r, Err(JqesqueError::PatchError(_))), "{input}");
        assert_eq!(out, doc(ADD_BASE));
    }
}

#[test]
fn replace_existing_key() {
    let (r, out) = apply("=parent.child.key=new_value", Separator::Dot, REPLACE_BASE);
    assert_eq!(r.unwrap(), Operation::Replace);
    assert_eq!(
        out,
        doc(r#"{"parent":{"child":{"key":"new_value"}},"array":[1,2,3],"root":"root_value"}"#)
    );
}

#[test]
fn replace_array_element() {
    let (r, out) = apply("=array/1=42", Separator::Slash, REPLACE_BASE);
    assert_eq!(r.unwrap(), Operation::Replace);
    assert_eq!(
        out,
        doc(r#"{"parent":{"child":{"key":"old_value"}},"array":[1,42,3],"root":"root_value"}"#)
    );
}

#[test]
fn replace_entire_object_and_null() {
    let (r, out) = apply("=parent={\"new\": \"object\"}", Separator::Dot, REPLACE_BASE);
    assert_eq!(r.unwrap(), Operation::Replace);
    assert_eq!(out, doc(r#"{"parent":{"new":"object"},"array":[1,2,3],"root":"root_value"}"#));
    let (r, out) = apply("=parent.child.key=null", Separator::Dot, REPLACE_BASE);
    assert_eq!(r.unwrap(), Operation::Replace);
    assert_eq!(
        out,
        doc(r#"{"parent":{"child":{"key":null}},"array":[1,2,3],"root":"root_value"}"#)
    );
}

#[test]
fn replace_missing_key_fails() {
    let (r, out) = apply("=nonexistent=value", Separator::Dot, r#"{"array":[1,2,3]}"#);
    assert!(matches!(r, Err(JqesqueError::PatchError(_))));
    assert_eq!(out, doc(r#"{"array":[1,2,3]}"#));
}

#[test]
fn remove_existing_key_without_value() {
    let parsed = Jqesque::from_str_with_separator("-existing_key", Separator::Dot).unwrap();
    assert_eq!(parsed.operation, Operation::Remove);
    assert!(parsed.value().is_none());
    let (r, out) = apply("-existing_key", Separator::Dot, REMOVE_BASE);
    assert_eq!(r.unwrap(), Operation::Remove);
    assert_eq!(
        out,
        doc(r#"{"array":[1,2,3],"nested":{"key":"value","array":[1,2,3]}}"#)
    );
}

#[test]
fn remove_array_element_and_nested() {
    let (r, out) = apply("-array[1]", Separator::Dot, REMOVE_BASE);
    assert_eq!(r.unwrap(), Operation::Remove);
    assert_eq!(
        out,
        doc(r#"{"existing_key":"value","array":[1,3],"nested":{"key":"value","array":[1,2,3]}}"#)
    );
    let (r, out) = apply("-nested.array[0]", Separator::Dot, REMOVE_BASE);
    assert_eq!(r.unwrap(), Operation::Remove);
    assert_eq!(
        out,
        doc(r#"{"existing_key":"value","array":[1,2,3],"nested":{"key":"value","array":[2,3]}}"#)
    );
}

#[test]
fn remove_missing_fails_with_patch_error() {
    for input in ["-nonexistent_key", "-nested.nonexistent_key", "-array[10]", "-nonexistent_array[0]"] {
        let (r, out) = apply(input, Separator::Dot, REMOVE_BASE);
        assert!(matches!(r, Err(JqesqueError::PatchError(_))), "{input}");
        assert_eq!(out, doc(REMOVE_BASE));
    }
}

#[test]
fn auto_replaces_existing_key() {
    let (r, out) = apply("k=new", Separator::Dot, r#"{"k":"old"}"#);
    assert_eq!(r.unwrap(), Operation::Replace);
    assert_eq!(out, doc(r#"{"k":"new"}"#));
}

#[test]
fn auto_adds_to_existing_parent() {
    let (r, out) = apply("k=new", Separator::Dot, "{}");
    assert_eq!(r.unwrap(), Operation::Add);
    assert_eq!(out, doc(r#"{"k":"new"}"#));
}

#[test]
fn auto_inserts_without_parent() {
    let (r, out) = apply("a.b.k=new", Separator::Dot, "{}");
    assert_eq!(r.unwrap(), Operation::Insert);
    assert_eq!(out, doc(r#"{"a":{"b":{"k":"new"}}}"#));
}

#[test]
fn auto_operation_cases() {
    let cases = [
        ("array[1]=42", r#"{"existing_key":"old_value","array":[1,42,3]}"#, Operation::Replace),
        ("array[3]=4", r#"{"existing_key":"old_value","array":[1,2,3,4]}"#, Operation::Add),
        (
            "new_array[0]=1",
            r#"{"existing_key":"old_value","array":[1,2,3],"new_array":[1]}"#,
            Operation::Insert,
        ),
        (
            "parent.new_child=new_value",
            r#"{"existing_key":"old_value","array":[1,2,3],"parent":{"new_child":"new_value"}}"#,
            Operation::Insert,
        ),
        (
            "new_key=new_value",
            r#"{"existing_key":"old_value","array":[1,2,3],"new_key":"new_value"}"#,
            Operation::Add,
        ),
    ];
    for (input, expected, op) in cases {
        let parsed = Jqesque::from_str_with_separator(input, Separator::Dot).unwrap();
        assert_eq!(parsed.operation, Operation::Auto);
        let (r, out) = apply(input, Separator::Dot, AUTO_BASE);
        assert_eq!(r.unwrap(), op, "{input}");
        assert_eq!(out, doc(expected), "{input}");
    }
}

#[test]
fn test_operation_success() {
    for (input, start) in [
        ("?key=value", r#"{"key":"value"}"#),
        ("?parent.child=value", r#"{"parent":{"child":"value"}}"#),
        ("?array[0]=1", r#"{"array":[1,2,3]}"#),
        ("?array[0][1]=2", r#"{"array":[[null,2]]}"#),
    ] {
        let (r, out) = apply(input, Separator::Dot, start);
        assert_eq!(r.unwrap(), Operation::Test, "{input}");
        assert_eq!(out, doc(start));
    }
}

#[test]
fn test_operation_mismatch() {
    let (r, _) = apply("?key=expected_value", Separator::Dot, r#"{"key":"actual_value"}"#);
    match r {
        Err(JqesqueError::TestFailedError { expected, actual }) => {
            assert_eq!(expected, doc("\"expected_value\""));
            assert_eq!(actual, doc("\"actual_value\""));
        }
        other => panic!("unexpected {other:?}"),
    }
}

#[test]
fn test_operation_missing_path() {
    let (r, _) = apply("?nonexistent=value", Separator::Dot, r#"{"key":"value"}"#);
    assert!(matches!(r, Err(JqesqueError::InvalidPathError(_))));
}

#[test]
fn missing_value_is_reported() {
    let q = Jqesque { tokens: vec![PathToken::Key("a".to_string())], value: None, operation: Operation::Add };
    let mut json_obj = doc(r#"{"a":1}"#);
    assert!(matches!(q.apply_to(&mut json_obj), Err(JqesqueError::MissingValueError(Operation::Add))));
    assert_eq!(json_obj, doc(r#"{"a":1}"#));
}

#[test]
fn pointer_escaping_round_trip() {
    let parsed = Jqesque::from_str_with_separator(">\"a/b~c\"=1", Separator::Dot).unwrap();
    assert_eq!(parsed.tokens_to_pointer(), "/a~1b~0c");
    let mut json_obj = Value::Null;
    parsed.apply_to(&mut json_obj).unwrap();
    assert_eq!(json_obj, doc(r#"{"a/b~c":1}"#));
    let test = Jqesque::from_str_with_separator("?\"a/b~c\"=1", Separator::Dot).unwrap();
    assert_eq!(test.apply_to(&mut json_obj).unwrap(), Operation::Test);
    let remove = Jqesque::from_str_with_separator("-\"a/b~c\"", Separator::Dot).unwrap();
    assert_eq!(remove.apply_to(&mut json_obj).unwrap(), Operation::Remove);
    assert_eq!(json_obj, doc("{}"));
}

#[test]
fn negative_or_invalid_index_rejected() {
    for input in ["arr[-1]=value", "arr[invalid]=value", "+array[-1]=value", "arr[]=1"] {
        let r = Jqesque::from_str_with_separator(input, Separator::Dot);
        assert!(matches!(r, Err(JqesqueError::ParseError(_))), "{input}");
    }
}

#[test]
fn parse_errors() {
    for input in ["key=", "key= ", "=value", "key", "!key=value", "", "+key..subkey=value", "+key\\subkey=value", "\"\"=1", "\"open=1", "a[18446744073709551615]=1"] {
        let r = parse_input(input, Separator::Dot);
        assert!(matches!(r, Err(JqesqueError::ParseError(_))), "{input:?}");
    }
}

#[test]
fn largest_index_below_limit_parses() {
    let parsed = parse_input("a[18446744073709551614]=1", Separator::Dot).unwrap();
    assert!(matches!(parsed.tokens()[1], PathToken::Index(18446744073709551614)));
}

#[test]
fn value_literal_fallback() {
    let cases = [
        ("k=hello", "\"hello\""),
        ("k=true", "true"),
        ("k=42", "42"),
        ("k=3.14", "3.14"),
        ("k=null", "null"),
        ("k={\"a\":1}", r#"{"a":1}"#),
        ("k= 7", "7"),
        ("k=  7", "7"),
        ("k=  x", "\" x\""),
        ("k={\"a\":", "\"{\\\"a\\\":\""),
        ("k=\"quoted\"", "\"quoted\""),
    ];
    for (input, expected) in cases {
        let parsed = parse_input(input, Separator::Dot).unwrap();
        assert_eq!(parsed.value().clone().unwrap(), doc(expected), "{input}");
    }
}

#[test]
fn operator_prefix_falls_back_to_key() {
    let parsed = parse_input("-a=1", Separator::Dot).unwrap();
    assert_eq!(parsed.operation, Operation::Auto);
    assert!(matches!(&parsed.tokens()[0], PathToken::Key(k) if k == "-a"));
    let parsed = parse_input("-a-b", Separator::Dot).unwrap();
    assert_eq!(parsed.operation, Operation::Remove);
    assert!(matches!(&parsed.tokens()[0], PathToken::Key(k) if k == "a-b"));
}

#[test]
fn parse_tokens_and_escapes() {
    let parsed = parse_input(">a.\"x\\\"y\\\\z\\n\"[2][0].b=1", Separator::Dot).unwrap();
    assert_eq!(parsed.operation, Operation::Insert);
    let t = parsed.tokens();
    assert_eq!(t.len(), 5);
    assert!(matches!(&t[0], PathToken::Key(k) if k == "a"));
    assert!(matches!(&t[1], PathToken::Key(k) if k == "x\"y\\zn"));
    assert!(matches!(t[2], PathToken::Index(2)));
    assert!(matches!(t[3], PathToken::Index(0)));
    assert!(matches!(&t[4], PathToken::Key(k) if k == "b"));
}

#[test]
fn as_json_insert_and_merge() {
    let parsed: Jqesque = ">parent.child=value".parse().unwrap();
    assert_eq!(parsed.as_json(), doc(r#"{"parent":{"child":"value"}}"#));
    let parsed: Jqesque = "~a[1]=2".parse().unwrap();
    assert_eq!(parsed.as_json(), doc(r#"{"a":[null,2]}"#));
}

#[test]
fn as_json_patch_operations() {
    let parsed: Jqesque = "+a.b=1".parse().unwrap();
    assert_eq!(parsed.as_json(), doc(r#"[{"op":"add","path":"/a/b","value":1}]"#));
    let parsed: Jqesque = "-a[3]".parse().unwrap();
    assert_eq!(parsed.as_json(), doc(r#"[{"op":"remove","path":"/a/3"}]"#));
    let parsed: Jqesque = "?x=\"s\"".parse().unwrap();
    assert_eq!(parsed.as_json(), doc(r#"[{"op":"test","path":"/x","value":"s"}]"#));
}

#[test]
fn as_json_auto_lists_stages() {
    let parsed: Jqesque = "k=v".parse().unwrap();
    assert_eq!(
        parsed.as_json(),
        doc(r#"[[{"op":"replace","path":"/k","value":"v"}],[{"op":"add","path":"/k","value":"v"}],{"k":"v"}]"#)
    );
}

#[test]
fn operation_characters() {
    assert_eq!(Operation::operators(), vec!['>', '~', '+', '-', '=', '?']);
    for c in Operation::operators() {
        let op = Operation::from_operator(c).unwrap();
        assert_eq!(op.to_operator(), Some(c));
    }
    assert_eq!(Operation::from_operator('!'), None);
    assert_eq!(Operation::Auto.to_operator(), None);
    assert_eq!(Operation::Merge.to_string(), "merge");
    assert_eq!(Operation::Auto.to_string(), "auto");
}

#[test]
fn separator_characters() {
    assert_eq!(Separator::Dot.as_char(), '.');
    assert_eq!(Separator::Slash.as_char(), '/');
    assert_eq!(Separator::Custom('|').as_char(), '|');
}

#[test]
fn escape_segment_substitutions() {
    assert_eq!(jqesque::escape_json_pointer_segment("a/b~c"), "a~1b~0c");
    assert_eq!(jqesque::escape_json_pointer_segment("~/"), "~0~1");
    assert_eq!(jqesque::escape_json_pointer_segment("plain"), "plain");
    assert_eq!(jqesque::escape_json_pointer_segment(""), "");
}
