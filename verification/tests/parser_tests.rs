use taml::parse;
use taml::Value;

fn lookup<'a>(obj: &'a [(String, Value)], key: &str) -> Option<&'a Value> {
    obj.iter().find(|e| e.0 == key).map(|e| &e.1)
}

#[test]
fn test_parse_simple_key_value() {
    let taml = "key\tvalue";
    let result = parse(taml).unwrap();

    let obj = result.as_object().unwrap();
    assert_eq!(lookup(obj, "key").unwrap().as_string(), Some(&"value".to_string()));
}

#[test]
fn test_parse_null_value() {
    let taml = "key\t~";
    let result = parse(taml).unwrap();

    let obj = result.as_object().unwrap();
    assert!(lookup(obj, "key").unwrap().is_null());
}

#[test]
fn test_parse_empty_string() {
    let taml = "key\t\"\"";
    let result = parse(taml).unwrap();

    let obj = result.as_object().unwrap();
    assert_eq!(lookup(obj, "key").unwrap().as_string(), Some(&"".to_string()));
}

#[test]
fn test_parse_boolean() {
    let taml = "enabled\ttrue\ndisabled\tfalse";
    let result = parse(taml).unwrap();

    let obj = result.as_object().unwrap();
    assert_eq!(lookup(obj, "enabled").unwrap().as_boolean(), Some(true));
    assert_eq!(lookup(obj, "disabled").unwrap().as_boolean(), Some(false));
}

#[test]
fn test_parse_numbers() {
    let taml = "integer\t42\nfloat\t3.14";
    let result = parse(taml).unwrap();

    let obj = result.as_object().unwrap();
    assert_eq!(lookup(obj, "integer").unwrap().as_integer(), Some(42));
    assert_eq!(lookup(obj, "float").unwrap().as_float().unwrap().parse::<f64>().unwrap(), 3.14);
}

#[test]
fn test_parse_nested_object() {
    let taml = "server\n\thost\tlocalhost\n\tport\t8080";
    let result = parse(taml).unwrap();

    let obj = result.as_object().unwrap();
    let server = lookup(obj, "server").unwrap().as_object().unwrap();
    assert_eq!(lookup(server, "host").unwrap().as_string(), Some(&"localhost".to_string()));
    assert_eq!(lookup(server, "port").unwrap().as_integer(), Some(8080));
}

#[test]
fn test_parse_array() {
    let taml = "items\n\tfirst\n\tsecond\n\tthird";
    let result = parse(taml).unwrap();

    let obj = result.as_object().unwrap();
    let items = lookup(obj, "items").unwrap().as_array().unwrap();
    assert_eq!(items.len(), 3);
    assert_eq!(items[0].as_string(), Some(&"first".to_string()));
    assert_eq!(items[1].as_string(), Some(&"second".to_string()));
    assert_eq!(items[2].as_string(), Some(&"third".to_string()));
}

#[test]
fn test_parse_empty_input() {
    let result = parse("").unwrap();
    let obj = result.as_object().unwrap();
    assert_eq!(obj.len(), 0);
}

#[test]
fn test_parse_strict_space_indentation_line() {
    let taml = "server\n    host\tlocalhost";
    let err = taml::parse_strict(taml).unwrap_err();
    assert_eq!(err.line, Some(2));
    assert_eq!(err.message, "Indentation must use tabs, not spaces");
}

#[test]
fn test_parse_strict_tab_in_value() {
    let err = taml::parse_strict("key\tvalue\twith\ttabs").unwrap_err();
    assert_eq!(err.line, Some(1));
    assert_eq!(err.message, "Value contains invalid tab character");
}

#[test]
fn test_parse_strict_accepts_valid() {
    let result = taml::parse_strict("key\tvalue\nserver\n\thost\tlocalhost").unwrap();
    assert!(result.is_object());
}

#[test]
fn test_parse_lenient_drops_bad_lines() {
    let taml = "good\t1\n    spaced\tx\nbad\ta\tb\nalso\t2";
    let result = parse(taml).unwrap();
    let obj = result.as_object().unwrap();
    assert_eq!(obj.len(), 2);
    assert_eq!(lookup(obj, "good").unwrap().as_integer(), Some(1));
    assert_eq!(lookup(obj, "also").unwrap().as_integer(), Some(2));
}

#[test]
fn test_parse_without_type_conversion() {
    let opts = taml::ParseOptions { strict: false, type_conversion: false };
    let result = taml::parse_with_options("n\t42\nb\ttrue\nnul\t~\nemp\t\"\"", opts).unwrap();
    let obj = result.as_object().unwrap();
    assert_eq!(lookup(obj, "n").unwrap().as_string(), Some(&"42".to_string()));
    assert_eq!(lookup(obj, "b").unwrap().as_string(), Some(&"true".to_string()));
    assert!(lookup(obj, "nul").unwrap().is_null());
    assert_eq!(lookup(obj, "emp").unwrap().as_string(), Some(&"".to_string()));
}

#[test]
fn test_parse_integer_bounds() {
    let taml = "max\t9223372036854775807\nmin\t-9223372036854775808\ntoo_big\t9223372036854775808\nplus\t+42";
    let result = parse(taml).unwrap();
    let obj = result.as_object().unwrap();
    assert_eq!(lookup(obj, "max").unwrap().as_integer(), Some(i64::MAX));
    assert_eq!(lookup(obj, "min").unwrap().as_integer(), Some(i64::MIN));
    // overflows i64, so it falls through to the float grammar
    assert!(lookup(obj, "too_big").unwrap().is_float());
    assert_eq!(lookup(obj, "plus").unwrap().as_integer(), Some(42));
}

#[test]
fn test_parse_float_grammar() {
    let taml = "exp\t1e5\nneg\t-0.5\ninf_word\tinf\nnan_word\tNaN\ndot_lead\t.5\ndot_trail\t5.\nnot_float\t1.2.3\nlone_dot\t.";
    let result = parse(taml).unwrap();
    let obj = result.as_object().unwrap();
    assert!(lookup(obj, "exp").unwrap().is_float());
    assert!(lookup(obj, "neg").unwrap().is_float());
    assert!(lookup(obj, "inf_word").unwrap().is_float());
    assert!(lookup(obj, "nan_word").unwrap().is_float());
    assert!(lookup(obj, "dot_lead").unwrap().is_float());
    assert!(lookup(obj, "dot_trail").unwrap().is_float());
    assert!(lookup(obj, "not_float").unwrap().is_string());
    assert!(lookup(obj, "lone_dot").unwrap().is_string());
}

#[test]
fn test_parse_duplicate_key_last_wins() {
    let result = parse("key\tfirst\nkey\tsecond").unwrap();
    let obj = result.as_object().unwrap();
    assert_eq!(obj.len(), 1);
    assert_eq!(lookup(obj, "key").unwrap().as_string(), Some(&"second".to_string()));
}

#[test]
fn test_parse_parent_with_no_children_is_empty_object() {
    let result = parse("top\n\tkid\tv\n\tempty").unwrap();
    let obj = result.as_object().unwrap();
    let top = lookup(obj, "top").unwrap().as_object().unwrap();
    let empty = lookup(top, "empty").unwrap().as_object().unwrap();
    assert_eq!(empty.len(), 0);
}

#[test]
fn test_value_get_method() {
    let result = parse("a\t1\nb\ttwo").unwrap();
    assert_eq!(result.get("b").unwrap().as_string(), Some(&"two".to_string()));
    assert!(result.get("missing").is_none());
    assert!(Value::Null.get("a").is_none());
}
