use taml::serializer::stringify_with_options;
use taml::SerializeOptions;
use taml::Value;

#[test]
fn test_stringify_simple() {
    let obj = vec![("key".to_string(), Value::String("value".to_string()))];

    let result = taml::serializer::stringify(&Value::Object(obj));
    assert_eq!(result, "key\tvalue");
}

#[test]
fn test_stringify_null() {
    let obj = vec![("key".to_string(), Value::Null)];

    let result = taml::serializer::stringify(&Value::Object(obj));
    assert_eq!(result, "key\t~");
}

#[test]
fn test_stringify_empty_string() {
    let obj = vec![("key".to_string(), Value::String(String::new()))];

    let result = taml::serializer::stringify(&Value::Object(obj));
    assert_eq!(result, "key\t\"\"");
}

#[test]
fn test_stringify_boolean() {
    let obj = vec![
        ("enabled".to_string(), Value::Boolean(true)),
        ("disabled".to_string(), Value::Boolean(false)),
    ];

    let result = taml::serializer::stringify(&Value::Object(obj));
    assert!(result.contains("true") || result.contains("false"));
}

#[test]
fn test_stringify_numbers() {
    let obj = vec![
        ("integer".to_string(), Value::Integer(42)),
        ("float".to_string(), Value::Float("3.14".to_string())),
    ];

    let result = taml::serializer::stringify(&Value::Object(obj));
    assert!(result.contains("42") || result.contains("3.14"));
}

#[test]
fn test_stringify_nested_object() {
    let server = vec![
        ("host".to_string(), Value::String("localhost".to_string())),
        ("port".to_string(), Value::Integer(8080)),
    ];

    let obj = vec![("server".to_string(), Value::Object(server))];

    let result = taml::serializer::stringify(&Value::Object(obj));
    assert!(result.contains("server"));
    assert!(result.contains("host\tlocalhost") || result.contains("localhost"));
}

#[test]
fn test_stringify_array() {
    let items = vec![
        Value::String("first".to_string()),
        Value::String("second".to_string()),
        Value::String("third".to_string()),
    ];

    let obj = vec![("items".to_string(), Value::Array(items))];

    let result = taml::serializer::stringify(&Value::Object(obj));
    assert!(result.contains("items"));
    assert!(result.contains("first"));
    assert!(result.contains("second"));
    assert!(result.contains("third"));
}

#[test]
fn test_stringify_exact_nested_output() {
    let server = vec![
        ("host".to_string(), Value::String("localhost".to_string())),
        ("port".to_string(), Value::Integer(8080)),
    ];
    let obj = vec![
        ("app".to_string(), Value::String("demo".to_string())),
        ("server".to_string(), Value::Object(server)),
        ("items".to_string(), Value::Array(vec![
            Value::String("one".to_string()),
            Value::String("two".to_string()),
        ])),
    ];
    let result = taml::serializer::stringify(&Value::Object(obj));
    assert_eq!(result, "app\tdemo\nserver\n\thost\tlocalhost\n\tport\t8080\nitems\n\tone\n\ttwo");
}

#[test]
fn test_stringify_with_indent_level() {
    let obj = vec![("key".to_string(), Value::String("value".to_string()))];
    let result = stringify_with_options(&Value::Object(obj), SerializeOptions { indent_level: 2 });
    assert_eq!(result, "\t\tkey\tvalue");
}

#[test]
fn test_stringify_negative_integer() {
    let obj = vec![("n".to_string(), Value::Integer(-9223372036854775808i64))];
    let result = taml::serializer::stringify(&Value::Object(obj));
    assert_eq!(result, "n\t-9223372036854775808");
}

#[test]
fn test_stringify_empty_object() {
    let result = taml::serializer::stringify(&Value::Object(Vec::new()));
    assert_eq!(result, "");
}
