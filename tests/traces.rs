use std::collections::HashSet;

use dreamluau::conversion::{ConversionVariant, ScriptNumber, ScriptValue};
use dreamluau::library::{
    DmModule, ExecModule, GlobalModule, ListModule, PackageModule, PointerModule, ProcFnCache,
};
use dreamluau::exec_limit::ExecLimit;
use dreamluau::to_table::{convert_to_table, index_number, HostEntry, HostHeap};
use dreamluau::traceback::{dm_traceback, TraceArg, TraceFrame};
use dreamluau::value::HostValue;

fn frame(name: Option<&str>, function: u64, args: Vec<TraceArg>) -> TraceFrame {
    TraceFrame {
        native: false,
        source: Some(b"input".to_vec()),
        name: name.map(|n| n.as_bytes().to_vec()),
        function,
        address: b"0x1f".to_vec(),
        args,
    }
}

#[test]
fn trace_lines_in_host_format() {
    let mut main = HashSet::new();
    main.insert(1u64);
    let frames = vec![
        frame(
            Some("do_thing"),
            5,
            vec![
                TraceArg::Nil,
                TraceArg::Bytes(b"say \"hi\"\n".to_vec()),
                TraceArg::Number(b"1.5".to_vec()),
            ],
        ),
        TraceFrame { native: true, ..frame(Some("pcall"), 6, vec![]) },
        TraceFrame { source: Some(b"__mlua_async".to_vec()), ..frame(None, 7, vec![]) },
        frame(None, 8, vec![TraceArg::Function { name: None, address: b"0x2".to_vec() }]),
        frame(None, 1, vec![]),
    ];
    let out = dm_traceback(&frames, &main);
    assert_eq!(
        String::from_utf8(out).unwrap(),
        "do thing(null, \"say \\\"hi\\\"\\n\", 1.5)\nanonymous function (0x1f)(anonymous function (0x2))\nmain chunk \"input\"()"
    );
}

#[test]
fn long_arguments_are_cut_at_thirty_bytes() {
    let long = vec![b'a'; 40];
    let obj = TraceArg::Object { text: Some(long.clone()), is_list: false, typepath: Some(b"/obj/item".to_vec()) };
    let frames = vec![frame(Some("f"), 2, vec![obj, TraceArg::Object { text: None, is_list: true, typepath: None }])];
    let out = String::from_utf8(dm_traceback(&frames, &HashSet::new())).unwrap();
    let cut = "a".repeat(30);
    assert_eq!(out, format!("f({cut}... (/obj/item), ??? (/list))"));
    let bin = vec![frame(Some("g"), 2, vec![TraceArg::Bytes(vec![0xff, 0x01])])];
    assert_eq!(String::from_utf8(dm_traceback(&bin, &HashSet::new())).unwrap(), "g(\"\\xff\\x01\")");
}

#[test]
fn index_numbers_carry_float_bits() {
    for k in [1u64, 2, 3, 7, 100, 4096, 0xFF_FFFF] {
        let n = index_number(k);
        assert_eq!(n.whole, Some(k as i64));
        assert_eq!(n.bits, (k as f32).to_bits());
    }
}

#[test]
fn host_lists_read_back_as_tables() {
    let mob = HostValue { tag: 0x03, data: 2 };
    let five = ScriptNumber { whole: Some(5), bits: 5.0f32.to_bits() };
    let heap = HostHeap {
        lists: vec![
            vec![
                (HostEntry::Object(mob), HostEntry::Null),
                (HostEntry::Text(b"k".to_vec()), HostEntry::Number(five)),
                (HostEntry::List { id: 1, value: HostValue { tag: 0x0F, data: 9 } }, HostEntry::Null),
            ],
            vec![(HostEntry::List { id: 0, value: HostValue { tag: 0x0F, data: 8 } }, HostEntry::Null)],
        ],
    };
    let shallow = convert_to_table(&heap, 0, false);
    assert_eq!(shallow.heap.tables.len(), 1);
    assert_eq!(
        shallow.heap.tables[shallow.root],
        vec![
            (ScriptValue::Number(index_number(1)), ScriptValue::Object(mob)),
            (ScriptValue::String(b"k".to_vec()), ScriptValue::Number(five)),
            (ScriptValue::Number(index_number(3)), ScriptValue::Object(HostValue { tag: 0x0F, data: 9 })),
        ]
    );
    let deep = convert_to_table(&heap, 0, true);
    assert_eq!(deep.heap.tables.len(), 2);
    let root = deep.root;
    let ScriptValue::Table(inner) = deep.heap.tables[root][2].1 else { panic!("not a table") };
    assert_eq!(deep.heap.tables[inner], vec![(ScriptValue::Number(index_number(1)), ScriptValue::Table(root))]);
    assert_eq!(deep.visited, vec![Some(root), Some(inner)]);
}

#[test]
fn variant_labels() {
    assert_eq!(ConversionVariant::Function.label().as_deref(), Some("function"));
    assert_eq!(ConversionVariant::ConversionError.label().as_deref(), Some("error"));
    assert_eq!(ConversionVariant::Clean.label(), None);
}

#[test]
fn script_library_helpers() {
    let mut l = ExecLimit::new();
    assert_eq!(ExecModule::exec_limit(&l), Ok(Some(100)));
    l.clear_execution_limit();
    assert_eq!(ExecModule::exec_limit(&l), Ok(None));
    l.set_execution_limit_nanos(u64::MAX);
    assert_eq!(
        ExecModule::exec_limit(&l).unwrap_err(),
        "out of range integral type conversion attempted"
    );
    l.increment_call_depth(0);
    assert_eq!(ExecModule::exec_time(&l, 3_000_000), Ok(Some(3)));
    assert_eq!(PackageModule::path(None, None), "?.luau;?.lua");
    assert_eq!(PackageModule::path(None, Some("x")), "x");
    assert_eq!(PackageModule::path(Some("y"), Some("x")), "y");
    assert_eq!(
        PointerModule::expect_pointer(&HostValue { tag: 0x03, data: 1 }).unwrap_err(),
        "expected pointer, got mob"
    );
    assert!(PointerModule::expect_pointer(&HostValue { tag: 0x3C, data: 1 }).is_ok());
    assert_eq!(ListModule::expect_list(&HostValue::null()).unwrap_err(), "Type is not a list");
    assert!(ListModule::filter_keeps(Some("/obj/item/gun"), "/obj/item"));
    assert!(!ListModule::filter_keeps(Some("/obj"), "/obj/item"));
    assert!(!ListModule::filter_keeps(None, ""));
    assert_eq!(GlobalModule::loadstring_code(""), " ");
    assert_eq!(GlobalModule(3).state_id(), 3);
    let mut c: ProcFnCache<u8> = ProcFnCache::new();
    assert!(c.get("foo").is_none());
    c.insert("foo", 4);
    assert_eq!(c.get("foo"), Some(&4));
}

#[test]
fn refs_and_pointers() {
    let obj = HostValue { tag: 0x02, data: 5 };
    assert!(DmModule::is_valid_ref(Some(obj), true));
    assert!(!DmModule::is_valid_ref(Some(obj), false));
    assert!(!DmModule::is_valid_ref(None, true));
    assert!(PointerModule::unwrap_reads(&HostValue { tag: 0x3C, data: 1 }));
    assert!(!PointerModule::unwrap_reads(&obj));
}
