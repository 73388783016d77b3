use nox::noml::{format_text, parse, serialize, Value};

fn property<'a>(properties: &'a [(String, Value)], key: &str) -> Option<&'a Value> {
    properties.iter().find(|(k, _)| k == key).map(|(_, v)| v)
}

#[test]
fn parses_basic_noml_values_and_rulesets() {
    let value = parse(
        r#"
        ruleset "commands" {
            command: help {
                description: ["Display help information."]
                aliases: []
                rules: {
                    requires_project: false,
                    requires_initialization: false,
                    accepts_files_as_input: false
                }
            }
        }
        "#,
    )
    .expect("ruleset should parse");

    match value {
        Value::Ruleset(ruleset) => {
            assert_eq!(ruleset.name, "commands");
            assert_eq!(ruleset.entries.len(), 1);
            assert_eq!(ruleset.entries[0].entry_type, "command");
            assert_eq!(ruleset.entries[0].name, "help");
            match property(&ruleset.entries[0].properties, "description") {
                Some(Value::Array(items)) => {
                    assert_eq!(items.len(), 1);
                    assert!(matches!(&items[0], Value::String(s) if s == "Display help information."));
                }
                _ => panic!("expected an array"),
            }
        }
        _ => panic!("expected a ruleset"),
    }
}

#[test]
fn serializes_parsed_noml_without_losing_structure() {
    let parsed = parse(
        r#"
        {
            name: "demo"
            enabled: true
            numbers: [1, 2, 3]
            nested: {
                flag: false
            }
        }
        "#,
    )
    .expect("object should parse");

    let text = serialize(&parsed);
    assert!(text.contains("name: demo"));
    assert!(text.contains("enabled: true"));
    assert!(text.contains("numbers: [1, 2, 3]"));
    assert!(text.contains("nested: {"));
}

#[test]
fn loads_the_nox_command_rules_noml_file() {
    let rules = nox::rules::base::BaseRules::load().expect("Nox commands should load");
    assert!(rules.commands.iter().any(|rule| rule.command == "help"));
    assert!(rules.commands.iter().any(|rule| rule.command == "task"));
}

#[test]
fn quoted_strings_read_back() {
    let parsed = parse("{ greeting: \"hello \\\"world\\\"\" }").expect("string parses");
    match parsed {
        Value::Object(properties) => match property(&properties, "greeting") {
            Some(Value::String(s)) => assert_eq!(s, "hello \"world\""),
            _ => panic!("expected a string"),
        },
        _ => panic!("expected an object"),
    }
}

#[test]
fn formats_noml_text_and_reports_errors() {
    let formatted = format_text("{b: 1, a: [true, null]}").expect("formats");
    assert!(formatted.find("a:").unwrap() < formatted.find("b:").unwrap());
    assert!(format_text("{ a: ").is_err());
    assert!(parse("{ a: 1 } trailing").is_err());
}

#[test]
fn resolves_extended_entries() {
    let parsed = parse(
        "ruleset \"r\" { thing: a { x: 1 } thing: b extends a { y: 2 } }",
    )
    .expect("extends parse");
    match parsed {
        Value::Ruleset(ruleset) => {
            let b = ruleset.entries.iter().find(|e| e.name == "b").expect("b");
            assert!(b.extends.is_none());
            assert!(matches!(property(&b.properties, "x"), Some(Value::Integer(1))));
            assert!(matches!(property(&b.properties, "y"), Some(Value::Integer(2))));
        }
        _ => panic!("expected a ruleset"),
    }
}

#[test]
fn entries_inherit_their_parents_properties() {
    let value = parse(r#"ruleset "r" { cmd: base { a: 1, b: 2 } cmd: child extends base { b: 3 } }"#)
        .expect("ruleset should parse");
    match value {
        Value::Ruleset(ruleset) => {
            let child = &ruleset.entries[1];
            assert!(child.extends.is_none());
            assert!(matches!(property(&child.properties, "a"), Some(Value::Integer(1))));
            assert!(matches!(property(&child.properties, "b"), Some(Value::Integer(3))));
        },
        _ => panic!("expected a ruleset"),
    }
}

#[test]
fn rejects_circular_extensions() {
    let error = parse(r#"ruleset "r" { c: a extends b { } c: b extends a { } }"#).expect_err("cycle");
    assert!(error.message.starts_with("circular extension detected"));
}

#[test]
fn parses_objects_to_their_properties() {
    match parse("{ b: [1, 2], a: \"x\" }").expect("object should parse") {
        Value::Object(properties) => {
            assert_eq!(properties.len(), 2);
            assert_eq!(properties[0].0, "a");
            assert!(matches!(&properties[0].1, Value::String(t) if t == "x"));
            assert!(matches!(&properties[1].1, Value::Array(items) if items.len() == 2));
        },
        _ => panic!("expected an object"),
    }
}

#[test]
fn writes_floats_as_numbers() {
    let formatted = format_text("{a: 1.50, b: 1., c: 007.25, d: 0.0}").expect("formats");
    assert!(formatted.contains("a: 1.5\n") || formatted.contains("a: 1.5,"), "{formatted}");
    assert!(formatted.contains("b: 1.0"), "{formatted}");
    assert!(formatted.contains("c: 7.25"), "{formatted}");
    assert!(formatted.contains("d: 0.0"), "{formatted}");
    assert!(!formatted.contains("1.50"), "{formatted}");
    match parse("2.500").expect("a float") {
        Value::Float(text) => assert_eq!(text, "2.5"),
        _ => panic!("expected a float"),
    }
}
