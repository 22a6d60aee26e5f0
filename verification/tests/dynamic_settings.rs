use fflag_dump::dynamic::{decode_dynamic_setting, decode_dynamic_settings, ClientSettings};
use fflag_dump::fastvar::{FastVarType, FastVarValue, FastVarValueType};

#[test]
fn flag_key_with_comment_value() {
    let got = decode_dynamic_setting("FFlagFooBar", "True;comment").unwrap();
    assert_eq!(got.name, "FooBar");
    assert_eq!(got.var_type, FastVarType::Dynamic);
    assert_eq!(got.value_type, FastVarValueType::Flag);
    assert!(matches!(got.value, FastVarValue::Flag(true)));
}

#[test]
fn dynamic_int_key() {
    let got = decode_dynamic_setting("DFIntBazQux", "42").unwrap();
    assert_eq!(got.name, "BazQux");
    assert_eq!(got.var_type, FastVarType::Dynamic);
    assert_eq!(got.value_type, FastVarValueType::Int);
    assert!(matches!(got.value, FastVarValue::Int(42)));
}

#[test]
fn unrelated_key_is_ignored() {
    assert!(decode_dynamic_setting("XFlagFooBar", "True").is_none());
    assert!(decode_dynamic_setting("", "True").is_none());
}

#[test]
fn int_parse_failure_is_uninit() {
    let got = decode_dynamic_setting("DFIntBazQux", "notanumber").unwrap();
    assert_eq!(got.value_type, FastVarValueType::Int);
    assert!(matches!(got.value, FastVarValue::Uninit));
}

#[test]
fn string_and_log_values_verbatim() {
    let got = decode_dynamic_setting("FStringPointsUrl", "https://x;rest").unwrap();
    assert_eq!(got.name, "PointsUrl");
    match got.value {
        FastVarValue::String(s) => assert_eq!(s, "https://x"),
        _ => panic!("wrong variant"),
    }
    let got = decode_dynamic_setting("DFLogNetTrace", "6").unwrap();
    assert_eq!(got.name, "NetTrace");
    match got.value {
        FastVarValue::Log(s) => assert_eq!(s, "6"),
        _ => panic!("wrong variant"),
    }
}

#[test]
fn flag_false_unless_exactly_true_text() {
    let got = decode_dynamic_setting("FFlagX", "true").unwrap();
    assert!(matches!(got.value, FastVarValue::Flag(false)));
    let got = decode_dynamic_setting("FFlagX", "False").unwrap();
    assert!(matches!(got.value, FastVarValue::Flag(false)));
}

#[test]
fn unknown_tag_word_is_invalid() {
    let got = decode_dynamic_setting("FBogusName", "1").unwrap();
    assert_eq!(got.value_type, FastVarValueType::Invalid);
    assert!(matches!(got.value, FastVarValue::Invalid));
}

#[test]
fn int_range_and_signs() {
    let got = decode_dynamic_setting("DFIntX", "-2147483648").unwrap();
    assert!(matches!(got.value, FastVarValue::Int(-2147483648)));
    let got = decode_dynamic_setting("DFIntX", "2147483647").unwrap();
    assert!(matches!(got.value, FastVarValue::Int(2147483647)));
    let got = decode_dynamic_setting("DFIntX", "2147483648").unwrap();
    assert!(matches!(got.value, FastVarValue::Uninit));
    let got = decode_dynamic_setting("DFIntX", "+7").unwrap();
    assert!(matches!(got.value, FastVarValue::Int(7)));
    let got = decode_dynamic_setting("DFIntX", "-").unwrap();
    assert!(matches!(got.value, FastVarValue::Uninit));
}

#[test]
fn whole_payload_decodes_to_registry() {
    let settings = ClientSettings {
        application_settings: vec![
            (String::from("FFlagFooBar"), String::from("True;note")),
            (String::from("DFIntBazQux"), String::from("42")),
            (String::from("ignored"), String::from("1")),
            (String::from("FFlagFooBar"), String::from("False")),
        ],
    };
    let reg = decode_dynamic_settings(&settings);
    assert_eq!(reg.len(), 2);
    let foo = reg.get(&String::from("FooBar")).unwrap();
    // the later pair replaced the earlier one
    assert!(matches!(foo.value, FastVarValue::Flag(false)));
    let baz = reg.get(&String::from("BazQux")).unwrap();
    assert!(matches!(baz.value, FastVarValue::Int(42)));
}
