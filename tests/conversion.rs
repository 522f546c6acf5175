use dreamluau::conversion::{
    convert_from_table, from_script_leaf, process_return_values, safe_convert_from_table,
    safe_from_script_leaf, ConversionKVP, ConversionVariant, HostItem, ScriptHeap, ScriptNumber,
    ScriptValue,
};
use dreamluau::to_table::{convert_to_table, HostEntry, HostHeap};
use dreamluau::types::ValueTag;
use dreamluau::value::HostValue;

fn whole(k: i64) -> ScriptValue {
    ScriptValue::Number(ScriptNumber { whole: Some(k), bits: (k as f32).to_bits() })
}

fn frac(x: f32) -> ScriptValue {
    ScriptValue::Number(ScriptNumber { whole: None, bits: x.to_bits() })
}

fn s(t: &str) -> ScriptValue {
    ScriptValue::String(t.as_bytes().to_vec())
}

fn num(x: f32) -> HostItem {
    HostItem::Value(HostValue { tag: ValueTag::Number, data: x.to_bits() })
}

fn func(name: Option<&str>, address: &str) -> ScriptValue {
    ScriptValue::Function { name: name.map(|n| n.to_string()), address: address.to_string() }
}

#[test]
fn positional_keys_precede_assoc_in_any_order() {
    let heap = ScriptHeap {
        tables: vec![vec![
            (whole(3), whole(30)),
            (whole(1), whole(10)),
            (s("foo"), s("bar")),
            (whole(2), whole(20)),
        ]],
    };
    let c = convert_from_table(&heap, 0).unwrap();
    let HostItem::List(id) = c.item else { panic!("not a list") };
    let list = &c.lists[id];
    assert_eq!(list.items, vec![num(10.0), num(20.0), num(30.0)]);
    assert_eq!(list.assoc, vec![(HostItem::Bytes(b"foo".to_vec()), HostItem::Bytes(b"bar".to_vec()))]);
}

#[test]
fn self_reference_is_cut() {
    let heap = ScriptHeap { tables: vec![vec![(whole(1), ScriptValue::Table(0)), (s("me"), ScriptValue::Table(0))]] };
    let c = convert_from_table(&heap, 0).unwrap();
    assert_eq!(c.lists.len(), 1);
    assert_eq!(c.lists[0].items, vec![HostItem::List(0)]);
    assert_eq!(c.lists[0].assoc[0].1, HostItem::List(0));
    let (safe, variant) = safe_convert_from_table(&heap, 0);
    assert_eq!(safe.lists.len(), 1);
    assert_eq!(safe.lists[0].items, vec![HostItem::List(0)]);
    assert!(matches!(variant, ConversionVariant::List(_)));
}

#[test]
fn mutual_cycle_makes_one_list_per_table() {
    let heap = ScriptHeap {
        tables: vec![vec![(whole(1), ScriptValue::Table(1))], vec![(whole(1), ScriptValue::Table(0))]],
    };
    let c = convert_from_table(&heap, 0).unwrap();
    assert_eq!(c.lists.len(), 2);
    let HostItem::List(root) = c.item else { panic!("not a list") };
    let HostItem::List(inner) = c.lists[root].items[0].clone() else { panic!("not a list") };
    assert_eq!(c.lists[inner].items, vec![HostItem::List(root)]);
}

#[test]
fn safe_mode_marks_functions() {
    let heap = ScriptHeap {
        tables: vec![vec![(whole(1), func(Some("f"), "0x10")), (s("g"), func(None, "0x20"))]],
    };
    assert!(convert_from_table(&heap, 0).is_err());
    let (c, variant) = safe_convert_from_table(&heap, 0);
    let HostItem::List(id) = c.item else { panic!("not a list") };
    assert_eq!(c.lists[id].items, vec![HostItem::Text("f: 0x10".to_string())]);
    assert_eq!(
        c.lists[id].assoc,
        vec![(HostItem::Bytes(b"g".to_vec()), HostItem::Text("anonymous function: 0x20".to_string()))]
    );
    let ConversionVariant::List(vs) = variant else { panic!("not a list") };
    assert_eq!(
        vs,
        vec![
            Some(ConversionKVP { key: ConversionVariant::Function, value: ConversionVariant::Clean }),
            Some(ConversionKVP { key: ConversionVariant::Clean, value: ConversionVariant::Function }),
        ]
    );
}

#[test]
fn strict_mode_rejects_functions_with_a_message() {
    let heap = ScriptHeap { tables: vec![vec![(whole(1), func(Some("f"), "0x10"))]] };
    assert_eq!(
        convert_from_table(&heap, 0).err().unwrap(),
        "error converting Lua function to BYOND value (Unsupported value type)"
    );
}

#[test]
fn clean_entries_leave_no_diagnostic() {
    let heap = ScriptHeap { tables: vec![vec![(whole(2), whole(5)), (s("k"), s("v"))]] };
    let (c, variant) = safe_convert_from_table(&heap, 0);
    let HostItem::List(id) = c.item else { panic!("not a list") };
    assert_eq!(c.lists[id].items, vec![HostItem::Value(HostValue::null()), num(5.0)]);
    assert_eq!(variant, ConversionVariant::List(vec![None, None, None]));
}

#[test]
fn key_errors_get_distinct_messages() {
    let bad = ScriptValue::String(vec![b'a', 0]);
    let bad2 = ScriptValue::String(vec![b'b', 0]);
    let heap = ScriptHeap { tables: vec![vec![(bad, whole(1)), (bad2, whole(2))]] };
    let (c, _) = safe_convert_from_table(&heap, 0);
    let HostItem::List(id) = c.item else { panic!("not a list") };
    let m = "nul byte found in provided data at position: 1";
    assert_eq!(c.lists[id].assoc[0].0, HostItem::Text(m.to_string()));
    assert_eq!(c.lists[id].assoc[1].0, HostItem::Text(format!("{m} ")));
}

#[test]
fn fractional_number_keys_are_refused_in_strict_mode() {
    let heap = ScriptHeap { tables: vec![vec![(frac(1.5), whole(1))]] };
    assert_eq!(convert_from_table(&heap, 0).err().unwrap(), "list index out of bounds");
    let (c, variant) = safe_convert_from_table(&heap, 0);
    let HostItem::List(id) = c.item else { panic!("not a list") };
    assert!(c.lists[id].items.is_empty());
    assert_eq!(variant, ConversionVariant::List(vec![None]));
}

#[test]
fn leaves_convert_by_kind() {
    assert_eq!(from_script_leaf(&ScriptValue::Nil).unwrap(), HostItem::Value(HostValue::null()));
    assert_eq!(from_script_leaf(&ScriptValue::Boolean(true)).unwrap(), num(1.0));
    assert_eq!(from_script_leaf(&ScriptValue::Boolean(false)).unwrap(), num(0.0));
    assert_eq!(from_script_leaf(&ScriptValue::Vector(1, 2, 3)).unwrap(), HostItem::Vector(1, 2, 3));
    assert_eq!(
        from_script_leaf(&ScriptValue::Thread { address: "0x1".to_string() }).unwrap_err(),
        "error converting Lua thread to BYOND value (Unsupported value type)"
    );
    assert_eq!(
        safe_from_script_leaf(&ScriptValue::UserData { address: "0x2".to_string() }),
        (HostItem::Text("0x2".to_string()), ConversionVariant::Userdata)
    );
    assert_eq!(
        safe_from_script_leaf(&ScriptValue::Error("bad".to_string())),
        (HostItem::Text("bad".to_string()), ConversionVariant::ErrorAsValue)
    );
    assert_eq!(
        safe_from_script_leaf(&s("x\0")),
        (
            HostItem::Text("nul byte found in provided data at position: 1".to_string()),
            ConversionVariant::ConversionError
        )
    );
}

#[test]
fn return_values_convert_one_by_one() {
    let heap = ScriptHeap { tables: vec![vec![(whole(1), whole(4))]] };
    let out = process_return_values(&heap, &vec![ScriptValue::Table(0), whole(7), func(None, "0x9")]);
    assert_eq!(out.len(), 3);
    assert_eq!(out[1].0.item, num(7.0));
    assert_eq!(out[2].1, ConversionVariant::Function);
    assert_eq!(out[0].0.lists[0].items, vec![num(4.0)]);
}

fn entry_of(item: &HostItem) -> HostEntry {
    match item {
        HostItem::Value(h) if h.tag == ValueTag::Null => HostEntry::Null,
        HostItem::Value(h) if h.tag == ValueTag::Number => {
            HostEntry::Number(ScriptNumber { whole: None, bits: h.data })
        }
        HostItem::Value(h) => HostEntry::Object(*h),
        HostItem::Bytes(b) => HostEntry::Text(b.clone()),
        _ => HostEntry::Null,
    }
}

#[test]
fn plain_table_round_trips() {
    let mob = HostValue { tag: ValueTag::Mob, data: 3 };
    let heap = ScriptHeap {
        tables: vec![vec![
            (whole(4), s("four")),
            (s("name"), ScriptValue::Object(mob)),
            (whole(2), frac(2.5)),
            (s("n"), whole(9)),
        ]],
    };
    let first = convert_from_table(&heap, 0).unwrap();
    let HostItem::List(id) = first.item else { panic!("not a list") };
    let list = &first.lists[id];
    let mut entries: Vec<(HostEntry, HostEntry)> =
        list.items.iter().map(|i| (entry_of(i), HostEntry::Null)).collect();
    entries.extend(list.assoc.iter().map(|(k, v)| (entry_of(k), entry_of(v))));
    let read = convert_to_table(&HostHeap { lists: vec![entries] }, 0, false);
    let second = convert_from_table(&read.heap, read.root).unwrap();
    let HostItem::List(id2) = second.item else { panic!("not a list") };
    assert_eq!(second.lists[id2].items, list.items);
    assert_eq!(second.lists[id2].assoc, list.assoc);
    assert_eq!(list.items.len(), 4);
}

#[test]
fn nested_function_fails_strict_conversion() {
    let heap = ScriptHeap {
        tables: vec![vec![(whole(1), ScriptValue::Table(1))], vec![(whole(1), func(Some("f"), "0x1"))]],
    };
    assert_eq!(
        convert_from_table(&heap, 0).err().unwrap(),
        "error converting Lua function to BYOND value (Unsupported value type)"
    );
    let (c, variant) = safe_convert_from_table(&heap, 0);
    assert_eq!(c.lists.len(), 2);
    let ConversionVariant::List(vs) = variant else { panic!("not a list") };
    assert_eq!(vs.len(), 1);
    let Some(ConversionKVP { key: ConversionVariant::List(inner), value: ConversionVariant::Clean }) = &vs[0] else {
        panic!("nested diagnostics missing")
    };
    assert_eq!(
        inner,
        &vec![Some(ConversionKVP { key: ConversionVariant::Function, value: ConversionVariant::Clean })]
    );
}

#[test]
fn self_reference_leaves_no_diagnostic() {
    let heap = ScriptHeap { tables: vec![vec![(s("self"), ScriptValue::Table(0)), (whole(1), whole(5))]] };
    let (c, variant) = safe_convert_from_table(&heap, 0);
    assert_eq!(c.lists.len(), 1);
    assert_eq!(c.lists[0].assoc, vec![(HostItem::Bytes(b"self".to_vec()), HostItem::List(0))]);
    assert_eq!(variant, ConversionVariant::List(vec![None, None]));
    let strict = convert_from_table(&heap, 0).unwrap();
    assert_eq!(strict.lists.len(), 1);
}

#[test]
fn off_position_keys_append_diagnostics() {
    let heap = ScriptHeap {
        tables: vec![vec![(whole(0), whole(1)), (whole(-2), func(None, "0x3")), (whole(1), whole(2))]],
    };
    assert_eq!(convert_from_table(&heap, 0).err().unwrap(), "list index out of bounds");
    let (c, variant) = safe_convert_from_table(&heap, 0);
    let HostItem::List(id) = c.item else { panic!("not a list") };
    assert_eq!(c.lists[id].items, vec![num(2.0)]);
    assert_eq!(
        variant,
        ConversionVariant::List(vec![
            None,
            None,
            Some(ConversionKVP { key: ConversionVariant::Function, value: ConversionVariant::Clean }),
        ])
    );
}
