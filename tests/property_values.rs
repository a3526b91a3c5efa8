use mc_manager::errors::ApiError;
use mc_manager::properties::{
    append_prop_escaped, parse_prop_unescaped, validate_properties, value_in_domain, PropAccess,
    PropDef, PropType, PropValue,
};
use mc_manager::propfile::{read_properties, read_property, write_properties};

fn escaped(s: &str) -> String {
    let mut out = String::new();
    append_prop_escaped(&mut out, s);
    out
}

fn text_of(v: &PropValue) -> String {
    let mut out = String::new();
    v.to_prop_value(&mut out);
    out
}

fn small_schema() -> Vec<PropDef> {
    vec![
        PropDef { access: PropAccess::Write, ty: PropType::Bool(true), name: "pvp", label: "PvP", desc: "d" },
        PropDef { access: PropAccess::Write, ty: PropType::String("hi"), name: "motd", label: "Motd", desc: "d" },
        PropDef { access: PropAccess::Write, ty: PropType::Int(0, -5, 5), name: "offset", label: "O", desc: "d" },
        PropDef { access: PropAccess::Write, ty: PropType::Uint(25565, 1, 65535), name: "server-port", label: "P", desc: "d" },
        PropDef { access: PropAccess::Write, ty: PropType::Datetime, name: "when", label: "W", desc: "d" },
        PropDef { access: PropAccess::Write, ty: PropType::IntEnum(0, vec!["a", "b"]), name: "mode", label: "M", desc: "d" },
        PropDef {
            access: PropAccess::Write,
            ty: PropType::StrEnum(0, vec![("easy", "Easy"), ("hard", "Hard")]),
            name: "difficulty",
            label: "D",
            desc: "d",
        },
        PropDef { access: PropAccess::Read, ty: PropType::String(""), name: "created", label: "C", desc: "d" },
        PropDef { access: PropAccess::Hidden, ty: PropType::Bool(false), name: "secret", label: "S", desc: "d" },
    ]
}

fn one(key: &str, v: PropValue) -> Vec<(String, PropValue)> {
    vec![(key.to_string(), v)]
}

#[test]
fn escape_leaves_plain_text() {
    assert_eq!(escaped("hello world"), "hello world");
}

#[test]
fn escape_special_characters() {
    assert_eq!(escaped("a=b:c\nd\re\tf"), "a\\=b\\:c\\nd\\re\\tf");
}

#[test]
fn escape_control_characters_as_unicode() {
    assert_eq!(escaped("\u{1}x\u{7f}\u{1f}"), "\\u0001x\\u007F\\u001F");
}

#[test]
fn unescape_known_escapes() {
    assert_eq!(parse_prop_unescaped("a\\=b\\:c\\nd\\re\\tf"), "a=b:c\nd\re\tf");
}

#[test]
fn unescape_unicode_takes_up_to_four_digits() {
    assert_eq!(parse_prop_unescaped("\\u0041x"), "Ax");
    assert_eq!(parse_prop_unescaped("\\u41"), "A");
    assert_eq!(parse_prop_unescaped("\\u00411"), "A1");
    assert_eq!(parse_prop_unescaped("\\u00e9"), "é");
}

#[test]
fn unescape_unicode_without_digits_gives_nul() {
    assert_eq!(parse_prop_unescaped("\\uZ"), "\u{0}Z");
}

#[test]
fn unescape_surrogate_code_is_dropped() {
    assert_eq!(parse_prop_unescaped("a\\uD800b"), "ab");
}

#[test]
fn unescape_keeps_trailing_backslash() {
    assert_eq!(parse_prop_unescaped("abc\\"), "abc\\");
}

#[test]
fn unescape_other_escape_is_literal() {
    assert_eq!(parse_prop_unescaped("\\q\\\\"), "q\\");
}

#[test]
fn escape_then_unescape_round_trip() {
    for s in ["", "plain", "a=b", "k:v", "line\nbreak\r\ttab", "\u{1}\u{7f}ctl", "ünïcode", "!\"#$%&'()*+,-./;<>?@[]^_`{|}~"] {
        assert_eq!(parse_prop_unescaped(&escaped(s)), s);
    }
}

#[test]
fn backslash_does_not_round_trip() {
    assert_eq!(parse_prop_unescaped(&escaped("a\\nb")), "a\nb");
}

#[test]
fn prop_value_texts() {
    assert_eq!(text_of(&PropValue::Boolean(true)), "true");
    assert_eq!(text_of(&PropValue::Boolean(false)), "false");
    assert_eq!(text_of(&PropValue::Int(-5)), "-5");
    assert_eq!(text_of(&PropValue::Int(i64::MIN)), "-9223372036854775808");
    assert_eq!(text_of(&PropValue::Uint(25565)), "25565");
    assert_eq!(text_of(&PropValue::Uint(0)), "0");
    assert_eq!(text_of(&PropValue::String("a=b".to_string())), "a\\=b");
}

#[test]
fn validate_accepts_values_in_domain() {
    let schema = small_schema();
    let values = vec![
        ("pvp".to_string(), PropValue::Boolean(false)),
        ("motd".to_string(), PropValue::String("x".to_string())),
        ("offset".to_string(), PropValue::Uint(5)),
        ("server-port".to_string(), PropValue::Int(25570)),
        ("when".to_string(), PropValue::String("2024-01-02 03:04:05".to_string())),
        ("mode".to_string(), PropValue::Uint(1)),
        ("difficulty".to_string(), PropValue::String("hard".to_string())),
    ];
    assert_eq!(validate_properties(&schema, &values), Ok(()));
}

#[test]
fn validate_unknown_key() {
    let r = validate_properties(&small_schema(), &one("nope", PropValue::Boolean(true)));
    assert_eq!(r, Err(ApiError::PropertyNotFound("nope".to_string())));
}

#[test]
fn validate_read_only_and_hidden_keys() {
    let schema = small_schema();
    assert_eq!(
        validate_properties(&schema, &one("created", PropValue::String("x".to_string()))),
        Err(ApiError::PropertyReadOnly("created".to_string()))
    );
    assert_eq!(
        validate_properties(&schema, &one("secret", PropValue::Boolean(true))),
        Err(ApiError::PropertyReadOnly("secret".to_string()))
    );
}

#[test]
fn validate_values_out_of_domain() {
    let schema = small_schema();
    let bad = [
        ("pvp", PropValue::Int(1)),
        ("motd", PropValue::Boolean(true)),
        ("offset", PropValue::Int(6)),
        ("offset", PropValue::Uint(u64::MAX)),
        ("server-port", PropValue::Uint(0)),
        ("server-port", PropValue::Int(-1)),
        ("when", PropValue::String("2024-13-02 03:04:05".to_string())),
        ("when", PropValue::String("2024-01-02 03:04".to_string())),
        ("mode", PropValue::Int(2)),
        ("mode", PropValue::Int(-1)),
        ("difficulty", PropValue::String("medium".to_string())),
    ];
    for (k, v) in bad {
        assert_eq!(validate_properties(&schema, &one(k, v)), Err(ApiError::PropertyInvalid(k.to_string())));
    }
}

#[test]
fn validate_reports_first_failure() {
    let values = vec![
        ("pvp".to_string(), PropValue::Boolean(true)),
        ("offset".to_string(), PropValue::Int(9)),
        ("nope".to_string(), PropValue::Int(1)),
    ];
    assert_eq!(validate_properties(&small_schema(), &values), Err(ApiError::PropertyInvalid("offset".to_string())));
}

#[test]
fn value_in_domain_datetime_flag() {
    let v = PropValue::String("2024-01-02 03:04:05".to_string());
    assert!(value_in_domain(&PropType::Datetime, &v, true));
    assert!(!value_in_domain(&PropType::Datetime, &v, false));
    let short = PropValue::String("2024-01-02".to_string());
    assert!(!value_in_domain(&PropType::Datetime, &short, true));
}

#[test]
fn read_properties_skips_comments_and_trims_keys() {
    let text = "#comment=1\r\n motd = hello \r\nnoequals\r\nport=1\r\nport=2\nempty=\r\n";
    let props = read_properties(text);
    assert_eq!(props.get(&"motd".to_string()), Some(" hello ".to_string()));
    assert_eq!(props.get(&"port".to_string()), Some("2".to_string()));
    assert_eq!(props.get(&"empty".to_string()), Some("".to_string()));
    assert_eq!(props.get(&"#comment".to_string()), None);
    assert_eq!(props.get(&"noequals".to_string()), None);
    assert_eq!(props.entries.len(), 4);
}

#[test]
fn read_properties_unescapes_values() {
    let props = read_properties("motd=a\\=b\\nc\r\n");
    assert_eq!(props.get(&"motd".to_string()), Some("a=b\nc".to_string()));
}

#[test]
fn read_property_takes_first_match() {
    let text = "port=1\r\nport=2\r\n";
    assert_eq!(read_property(text, "port"), Some("1".to_string()));
    assert_eq!(read_property(text, "other"), None);
    assert_eq!(read_property("", "port"), None);
}

#[test]
fn write_properties_rewrites_first_line_and_appends_rest() {
    let text = "#head\r\nmotd=old\r\n  pvp =true\r\nmotd=dup\nlast";
    let values = vec![
        ("motd".to_string(), PropValue::String("a:b".to_string())),
        ("pvp".to_string(), PropValue::Boolean(false)),
        ("server-port".to_string(), PropValue::Uint(25570)),
    ];
    let out = write_properties(text, &values);
    assert_eq!(out, "#head\r\nmotd=a\\:b\r\n  pvp =false\r\nmotd=a\\:b\r\nlast\r\nserver-port=25570\r\n");
}

#[test]
fn write_then_read_returns_overrides() {
    let text = "motd=old\r\nkeep=1\r\n";
    let values = vec![
        ("motd".to_string(), PropValue::String("new = value\n".to_string())),
        ("server-port".to_string(), PropValue::Uint(25570)),
        ("pvp".to_string(), PropValue::Boolean(true)),
    ];
    let props = read_properties(&write_properties(text, &values));
    assert_eq!(props.get(&"motd".to_string()), Some("new = value\n".to_string()));
    assert_eq!(props.get(&"server-port".to_string()), Some("25570".to_string()));
    assert_eq!(props.get(&"pvp".to_string()), Some("true".to_string()));
    assert_eq!(props.get(&"keep".to_string()), Some("1".to_string()));
}

#[test]
fn write_then_read_with_duplicate_lines() {
    let text = "motd=one\r\nmotd=two\r\n";
    let values = vec![("motd".to_string(), PropValue::String("three".to_string()))];
    let written = write_properties(text, &values);
    assert_eq!(written, "motd=three\r\nmotd=three\r\n");
    assert_eq!(read_properties(&written).get(&"motd".to_string()), Some("three".to_string()));
}
