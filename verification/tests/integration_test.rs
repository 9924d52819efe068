use taml::parse;
use taml::validate;
use taml::Value;

fn get_in<'a>(obj: &'a [(String, Value)], key: &str) -> Option<&'a Value> {
    obj.iter().find(|e| e.0 == key).map(|e| &e.1)
}

#[test]
fn test_parse_and_stringify_roundtrip() {
    let taml = "application\tMyApp\nversion\t1.0.0\n\nserver\n\thost\tlocalhost\n\tport\t8080\n\tssl\ttrue\n\ndatabase\n\ttype\tpostgresql\n\tconnection\n\t\thost\tdb.example.com\n\t\tport\t5432\n\nfeatures\n\tauthentication\n\tlogging\n\tcaching";

    // Parse
    let parsed = parse(taml).expect("Failed to parse TAML");

    // Verify structure
    let obj = parsed.as_object().expect("Root should be an object");
    assert_eq!(get_in(obj, "application").unwrap().as_string(), Some(&"MyApp".to_string()));
    assert_eq!(get_in(obj, "version").unwrap().as_string(), Some(&"1.0.0".to_string()));

    let server = get_in(obj, "server").unwrap().as_object().unwrap();
    assert_eq!(get_in(server, "host").unwrap().as_string(), Some(&"localhost".to_string()));
    assert_eq!(get_in(server, "port").unwrap().as_integer(), Some(8080));
    assert_eq!(get_in(server, "ssl").unwrap().as_boolean(), Some(true));

    let features = get_in(obj, "features").unwrap().as_array().unwrap();
    assert_eq!(features.len(), 3);
    assert_eq!(features[0].as_string(), Some(&"authentication".to_string()));

    // Serialize
    let serialized = taml::serializer::stringify(&parsed);

    // Parse again
    let reparsed = parse(&serialized).expect("Failed to reparse");

    // Basic verification that structure is maintained
    let reparsed_obj = reparsed.as_object().unwrap();
    assert_eq!(get_in(reparsed_obj, "application").unwrap().as_string(), Some(&"MyApp".to_string()));
}

#[test]
fn test_null_and_empty_values() {
    let taml = "name\tAlice\npassword\t~\nnickname\t\"\"\nbio\tHello world";

    let parsed = parse(taml).unwrap();
    let obj = parsed.as_object().unwrap();

    assert_eq!(get_in(obj, "name").unwrap().as_string(), Some(&"Alice".to_string()));
    assert!(get_in(obj, "password").unwrap().is_null());
    assert_eq!(get_in(obj, "nickname").unwrap().as_string(), Some(&"".to_string()));
    assert_eq!(get_in(obj, "bio").unwrap().as_string(), Some(&"Hello world".to_string()));
}

#[test]
fn test_nested_structures() {
    let taml = "config\n\tdatabase\n\t\thost\tlocalhost\n\t\tport\t5432\n\t\tcredentials\n\t\t\tusername\tadmin\n\t\t\tpassword\tsecret\n\tfeatures\n\t\tauth\n\t\tlogging\n\t\tcaching";

    let parsed = parse(taml).unwrap();
    let obj = parsed.as_object().unwrap();

    let config = get_in(obj, "config").unwrap().as_object().unwrap();
    let database = get_in(config, "database").unwrap().as_object().unwrap();
    let credentials = get_in(database, "credentials").unwrap().as_object().unwrap();

    assert_eq!(get_in(credentials, "username").unwrap().as_string(), Some(&"admin".to_string()));
    assert_eq!(get_in(credentials, "password").unwrap().as_string(), Some(&"secret".to_string()));

    let features = get_in(config, "features").unwrap().as_array().unwrap();
    assert_eq!(features.len(), 3);
}

#[test]
fn test_validation_valid_taml() {
    let taml = "key\tvalue\nserver\n\thost\tlocalhost\n\tport\t8080";

    let errors = validate(taml);
    assert_eq!(errors.len(), 0, "Valid TAML should have no errors");
}

#[test]
fn test_validation_space_indentation() {
    let taml = "server\n    host\tlocalhost";
    let errors = validate(taml);
    assert!(errors.len() > 0, "Should detect space indentation");
}

#[test]
fn test_validation_tab_in_value() {
    let taml = "key\tvalue\twith\ttabs";
    let errors = validate(taml);
    assert!(errors.len() > 0, "Should detect tabs in value");
}

#[test]
fn test_type_conversion() {
    let taml = "string\thello\ninteger\t42\nfloat\t3.14\nbool_true\ttrue\nbool_false\tfalse\nnull_value\t~";

    let parsed = parse(taml).unwrap();
    let obj = parsed.as_object().unwrap();

    assert!(get_in(obj, "string").unwrap().is_string());
    assert!(get_in(obj, "integer").unwrap().is_integer());
    assert!(get_in(obj, "float").unwrap().is_float());
    assert!(get_in(obj, "bool_true").unwrap().is_boolean());
    assert!(get_in(obj, "bool_false").unwrap().is_boolean());
    assert!(get_in(obj, "null_value").unwrap().is_null());
}

#[test]
fn test_comments_and_empty_lines() {
    let taml = "# This is a comment\napplication\tMyApp\n\n# Another comment\nversion\t1.0.0\n\n# Server configuration\nserver\n\thost\tlocalhost";

    let parsed = parse(taml).unwrap();
    let obj = parsed.as_object().unwrap();

    assert_eq!(get_in(obj, "application").unwrap().as_string(), Some(&"MyApp".to_string()));
    assert_eq!(get_in(obj, "version").unwrap().as_string(), Some(&"1.0.0".to_string()));
}

#[test]
fn test_roundtrip_reproduces_tree() {
    let taml = "application\tMyApp\nserver\n\thost\tlocalhost\n\tport\t8080\nitems\n\tone\n\ttwo\nnothing\t~";
    let v = parse(taml).unwrap();
    let reparsed = parse(&taml::serializer::stringify(&v)).unwrap();
    assert_eq!(reparsed, v);
}

#[test]
fn test_stringify_fixed_point_after_one_cycle() {
    let taml = "b\t2\na\ttext\nserver\n\thost\tlocalhost\nflags\n\tx\n\ty";
    let s0 = taml::serializer::stringify(&parse(taml).unwrap());
    let s1 = taml::serializer::stringify(&parse(&s0).unwrap());
    let s2 = taml::serializer::stringify(&parse(&s1).unwrap());
    assert_eq!(s1, s0);
    assert_eq!(s2, s1);
}

#[test]
fn test_validate_empty_means_strict_parse_succeeds() {
    let good = "key\tvalue\nserver\n\thost\tlocalhost";
    assert!(validate(good).is_empty());
    assert!(taml::parse_strict(good).is_ok());

    // the converse does not hold: strict parsing ignores level structure
    let orphan = "key\tvalue\n\torphan\tvalue";
    assert!(!validate(orphan).is_empty());
    assert!(taml::parse_strict(orphan).is_ok());
}

#[test]
fn test_strict_parse_ignores_level_diagnostics() {
    // mixed indentation is reported by validate but accepted by parse_strict:
    // only space indentation, empty keys and tabs in values are strict errors
    let mixed = "server\n\t host\tlocalhost";
    assert_eq!(taml::validate(mixed).len(), 1);
    assert!(taml::parse_strict(mixed).is_ok());
}

#[test]
fn test_error_display_string() {
    let e = taml::TAMLError::with_line("Line has no key", 3);
    assert_eq!(e.display_string(), "Line 3: Line has no key");
    let e2 = taml::TAMLError::new("oops");
    assert_eq!(e2.display_string(), "oops");
}
