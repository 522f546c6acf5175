use dreamluau::types::{dm_type_name, ValueTag};
use dreamluau::value::{
    can_index_at_all, get_cache_id, is_valid_proc_index_for_value, is_valid_var_index_for_value,
    type_name_for_obj, validate_index, HostValue,
};
use dreamluau::wrappers::{normalize_wrapper, WrapperError, Wrappers};

fn v(tag: u8, data: u32) -> HostValue {
    HostValue { tag, data }
}

#[test]
fn type_names_of_known_and_unknown_tags() {
    assert_eq!(dm_type_name(ValueTag::Null), "null");
    assert_eq!(dm_type_name(ValueTag::Filters), "filter(s)");
    assert_eq!(dm_type_name(ValueTag::TurfVisContents), "turf vis_contents");
    assert_eq!(dm_type_name(0x07), "unknown (7)");
    assert_eq!(dm_type_name(255), "unknown (255)");
}

#[test]
fn globals_object_has_its_own_name() {
    assert_eq!(type_name_for_obj(&HostValue::globals()), "global vars object");
    assert_eq!(type_name_for_obj(&HostValue::world()), "world");
}

#[test]
fn index_rules_by_kind() {
    let mob = v(ValueTag::Mob, 3);
    let num = v(ValueTag::Number, 0);
    let text = v(ValueTag::String, 9);
    assert!(validate_index(&mob, &text).is_ok());
    assert_eq!(
        validate_index(&mob, &num).unwrap_err(),
        "Objects of type \"mob\" can only be indexed by string, got \"number\""
    );
    assert_eq!(
        validate_index(&v(ValueTag::Number, 0), &text).unwrap_err(),
        "Cannot index objects of type \"number\""
    );
    let contents = v(ValueTag::MobContents, 1);
    assert!(validate_index(&contents, &num).is_ok());
    assert_eq!(
        validate_index(&contents, &text).unwrap_err(),
        "Objects of type \"mob contents\" can only be indexed by number, got \"string\""
    );
    let vars = v(ValueTag::MobVars, 1);
    assert_eq!(
        validate_index(&vars, &v(ValueTag::Obj, 2)).unwrap_err(),
        "Objects of type \"mob vars\" can only be indexed by string or number, got \"obj\""
    );
    assert!(validate_index(&v(ValueTag::List, 1), &v(ValueTag::Obj, 2)).is_ok());
    assert!(can_index_at_all(&HostValue::world()));
}

#[test]
fn var_and_proc_names() {
    let save = v(ValueTag::SaveFile, 4);
    assert!(is_valid_var_index_for_value(Some("eof"), &save));
    assert!(!is_valid_var_index_for_value(Some("maxx"), &save));
    assert!(!is_valid_var_index_for_value(None, &save));
    assert!(is_valid_var_index_for_value(None, &HostValue::globals()));
    let contents = v(ValueTag::MobContents, 1);
    assert!(is_valid_proc_index_for_value("RemoveAll", &contents));
    assert!(!is_valid_proc_index_for_value("Explode", &contents));
    assert!(is_valid_proc_index_for_value("Explode", &v(ValueTag::Datum, 1)));
}

#[test]
fn cache_ids_pack_tag_and_reference() {
    assert_eq!(get_cache_id(&v(0x21, 5)), (0x21u64 << 32) + 5);
    assert_ne!(get_cache_id(&v(0x21, 5)), get_cache_id(&v(0x22, 5)));
}

#[test]
fn wrapper_names_lose_proc_prefix() {
    assert_eq!(normalize_wrapper("/proc/wrap_call"), Some("wrap_call".to_string()));
    assert_eq!(normalize_wrapper("wrap_call"), Some("wrap_call".to_string()));
    assert_eq!(normalize_wrapper(""), None);
    let mut w = Wrappers::new();
    w.set_var_set_wrapper("/proc/set_it");
    assert_eq!(w.var_set.as_deref(), Some("set_it"));
    let err = w.check_write_list_index(&v(ValueTag::MobVars, 1)).unwrap_err();
    assert_eq!(
        err.message(),
        "direct modification of mob vars lists is forbidden when var set wrapper is set"
    );
    assert!(w.check_write_list_index(&v(ValueTag::List, 1)).is_ok());
    w.set_var_set_wrapper("");
    assert!(w.check_write_list_index(&v(ValueTag::MobVars, 1)).is_ok());
}

#[test]
fn reading_assoc_vars_is_forbidden_under_var_get_wrapper() {
    let mut w = Wrappers::new();
    assert!(w.check_read_list_index(&v(ValueTag::ObjVars, 1), false).is_ok());
    w.set_var_get_wrapper("get_it");
    assert!(w.check_read_list_index(&v(ValueTag::ObjVars, 1), true).is_ok());
    let err = w.check_read_list_index(&v(ValueTag::ObjVars, 1), false).unwrap_err();
    assert_eq!(
        err.message(),
        "direct reading of obj vars assoc values is forbidden when var get wrapper is set"
    );
    assert_eq!(
        w.print_target().unwrap_err(),
        WrapperError::NoWrapper("print".to_string())
    );
    assert_eq!(w.print_target().unwrap_err().message(), "print wrapper is not set");
}
