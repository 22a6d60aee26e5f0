use fflag_dump::cache::{default_version, get_fflags_if_version_cached, write_flags_to_cache};
use fflag_dump::fastvar::{FastVar, FastVarType, FastVarValue, FastVarValueType};
use fflag_dump::registry::Registry;

fn sample_registry() -> Registry {
    let mut reg = Registry::new();
    reg.insert(FastVar {
        name: String::from("Alpha"),
        var_type: FastVarType::Static,
        value_type: FastVarValueType::Flag,
        value: FastVarValue::Flag(true),
    });
    reg.insert(FastVar {
        name: String::from("Beta"),
        var_type: FastVarType::Dynamic,
        value_type: FastVarValueType::Int,
        value: FastVarValue::Int(9),
    });
    reg
}

#[test]
fn cache_idempotence_same_version() {
    let reg = sample_registry();
    let version = String::from("version-1.2.3");
    let bytes = write_flags_to_cache(&version, &reg).unwrap();
    let got = get_fflags_if_version_cached(&version, bytes).unwrap().unwrap();
    assert_eq!(got.len(), 2);
    let a = got.get(&String::from("Alpha")).unwrap();
    assert_eq!(a.var_type, FastVarType::Static);
    assert!(matches!(a.value, FastVarValue::Flag(true)));
    let b = got.get(&String::from("Beta")).unwrap();
    assert_eq!(b.value_type, FastVarValueType::Int);
    assert!(matches!(b.value, FastVarValue::Int(9)));
}

#[test]
fn cache_miss_on_other_version() {
    let reg = sample_registry();
    let bytes = write_flags_to_cache(&String::from("v1"), &reg).unwrap();
    let got = get_fflags_if_version_cached(&String::from("v2"), bytes).unwrap();
    assert!(got.is_none());
}

#[test]
fn cache_truncation_leaves_no_old_entries() {
    let reg1 = sample_registry();
    let _slot = write_flags_to_cache(&String::from("v1"), &reg1).unwrap();
    // the write replaces the slot whole
    let mut reg2 = Registry::new();
    reg2.insert(FastVar {
        name: String::from("Gamma"),
        var_type: FastVarType::Sync,
        value_type: FastVarValueType::Flag,
        value: FastVarValue::Flag(false),
    });
    let slot = write_flags_to_cache(&String::from("v2"), &reg2).unwrap();
    // reading the old version from the new slot is a miss
    let stale = get_fflags_if_version_cached(&String::from("v1"), slot.clone()).unwrap();
    assert!(stale.is_none());
    // and the new slot holds only the new entries
    let fresh = get_fflags_if_version_cached(&String::from("v2"), slot).unwrap().unwrap();
    assert_eq!(fresh.len(), 1);
    assert!(fresh.get(&String::from("Alpha")).is_none());
    assert!(fresh.get(&String::from("Gamma")).is_some());
}

#[test]
fn empty_slot_is_no_cache() {
    let got = get_fflags_if_version_cached(&String::from("v1"), Vec::new()).unwrap();
    assert!(got.is_none());
}

#[test]
fn registry_insert_replaces_by_name() {
    let mut reg = Registry::new();
    reg.insert(FastVar {
        name: String::from("K"),
        var_type: FastVarType::Static,
        value_type: FastVarValueType::Int,
        value: FastVarValue::Int(1),
    });
    reg.insert(FastVar {
        name: String::from("K"),
        var_type: FastVarType::Static,
        value_type: FastVarValueType::Int,
        value: FastVarValue::Int(2),
    });
    assert_eq!(reg.len(), 1);
    assert!(matches!(reg.get(&String::from("K")).unwrap().value, FastVarValue::Int(2)));
    assert!(reg.get(&String::from("Missing")).is_none());
}

#[test]
fn default_version_text() {
    assert_eq!(default_version(), "latest");
}
