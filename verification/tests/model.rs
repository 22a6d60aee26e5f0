use fflag_dump::fastvar::{
    get_type_str_for_fast_var_value_type, i32_to_decimal_string, u64_to_decimal_string, FastVar,
    FastVarType, FastVarValue, FastVarValueType,
};
use fflag_dump::stream::NetworkStream;

fn round_trip(var: FastVar) -> FastVar {
    let mut stream = NetworkStream::new();
    let mut v = var;
    stream.write(&mut v).unwrap();
    stream.read::<FastVar>().unwrap()
}

#[test]
fn fastvar_round_trip_int() {
    let got = round_trip(FastVar {
        name: String::from("DebugInt"),
        var_type: FastVarType::Static,
        value_type: FastVarValueType::Int,
        value: FastVarValue::Int(-42),
    });
    assert_eq!(got.name, "DebugInt");
    assert_eq!(got.var_type, FastVarType::Static);
    assert_eq!(got.value_type, FastVarValueType::Int);
    assert!(matches!(got.value, FastVarValue::Int(-42)));
}

#[test]
fn fastvar_round_trip_flag() {
    let got = round_trip(FastVar {
        name: String::from("F"),
        var_type: FastVarType::Dynamic,
        value_type: FastVarValueType::Flag,
        value: FastVarValue::Flag(true),
    });
    assert_eq!(got.var_type, FastVarType::Dynamic);
    assert!(matches!(got.value, FastVarValue::Flag(true)));
}

#[test]
fn fastvar_round_trip_string() {
    let got = round_trip(FastVar {
        name: String::from("Url"),
        var_type: FastVarType::Sync,
        value_type: FastVarValueType::String,
        value: FastVarValue::String(String::from("https://example")),
    });
    match got.value {
        FastVarValue::String(s) => assert_eq!(s, "https://example"),
        _ => panic!("wrong variant"),
    }
}

#[test]
fn fastvar_round_trip_log() {
    let got = round_trip(FastVar {
        name: String::from("L"),
        var_type: FastVarType::Any,
        value_type: FastVarValueType::Log,
        value: FastVarValue::Log(String::from("7")),
    });
    assert_eq!(got.var_type, FastVarType::Any);
    match got.value {
        FastVarValue::Log(s) => assert_eq!(s, "7"),
        _ => panic!("wrong variant"),
    }
}

#[test]
fn fastvar_round_trip_uninit_and_invalid() {
    let got = round_trip(FastVar {
        name: String::from("U"),
        var_type: FastVarType::LocalLocked,
        value_type: FastVarValueType::Uninit,
        value: FastVarValue::Uninit,
    });
    assert_eq!(got.value_type, FastVarValueType::Uninit);
    assert!(matches!(got.value, FastVarValue::Uninit));

    let got = round_trip(FastVar {
        name: String::from("I"),
        var_type: FastVarType::Invalid,
        value_type: FastVarValueType::Invalid,
        value: FastVarValue::Invalid,
    });
    assert_eq!(got.value_type, FastVarValueType::Invalid);
    assert!(matches!(got.value, FastVarValue::Invalid));
}

#[test]
fn unknown_type_codes_decode_to_invalid() {
    // name "A", var_type code 0x99 (unknown), value_type code 0x99, value tag 0x99
    let mut stream = NetworkStream::new();
    stream.write_string_le::<u32>("A").unwrap();
    stream.write_le::<u32>(0x99);
    stream.write_le::<u32>(0x99);
    stream.write_le::<u32>(0x99);
    let got = stream.read::<FastVar>().unwrap();
    assert_eq!(got.var_type, FastVarType::Invalid);
    assert_eq!(got.value_type, FastVarValueType::Invalid);
    assert!(matches!(got.value, FastVarValue::Invalid));
}

#[test]
fn value_to_string_texts() {
    assert_eq!(FastVarValue::Int(-15).to_string(), "-15");
    assert_eq!(FastVarValue::Int(0).to_string(), "0");
    assert_eq!(FastVarValue::Flag(true).to_string(), "true");
    assert_eq!(FastVarValue::Flag(false).to_string(), "false");
    assert_eq!(FastVarValue::String(String::from("x")).to_string(), "x");
    assert_eq!(FastVarValue::Log(String::from("9")).to_string(), "9");
    assert_eq!(FastVarValue::Invalid.to_string(), "INVALID VALUE TYPE");
    assert_eq!(
        FastVarValue::Uninit.to_string(),
        "VALUE NOT IN INITIALIZED MEMORY"
    );
}

#[test]
fn decimal_strings() {
    assert_eq!(u64_to_decimal_string(0), "0");
    assert_eq!(u64_to_decimal_string(120), "120");
    assert_eq!(u64_to_decimal_string(98765), "98765");
    assert_eq!(i32_to_decimal_string(i32::MIN), "-2147483648");
    assert_eq!(i32_to_decimal_string(i32::MAX), "2147483647");
}

#[test]
fn type_strings() {
    assert_eq!(get_type_str_for_fast_var_value_type(FastVarValueType::Flag), "bool");
    assert_eq!(get_type_str_for_fast_var_value_type(FastVarValueType::Int), "i32");
    assert_eq!(get_type_str_for_fast_var_value_type(FastVarValueType::Log), "u16");
    assert_eq!(get_type_str_for_fast_var_value_type(FastVarValueType::String), "&str");
    assert_eq!(get_type_str_for_fast_var_value_type(FastVarValueType::Uninit), "");
    assert_eq!(get_type_str_for_fast_var_value_type(FastVarValueType::Invalid), "");
}
