use vstd::prelude::*;

use crate::text::{decimal, owned, push_decimal, str_eq};
use crate::types::ValueTag;
use crate::value::HostValue;

verus! {

/// The largest length a host list may be given.
pub const MAX_LIST_LEN: u64 = 0x00FF_FFFF;

/// The bits of the 32-bit float 1.0, the host's true.
pub const HOST_TRUE_BITS: u32 = 0x3F80_0000;

/// A script number: the bits of its narrowing to the host's 32-bit float, and
/// its integer value where it is whole and within the host's float range.
#[derive(Clone, Copy, Debug, PartialEq, Eq, Structural)]
pub struct ScriptNumber {
    pub whole: Option<i64>,
    pub bits: u32,
}

/// A script value. Tables are named by their index in a [`ScriptHeap`];
/// entities the host cannot hold carry the text that identifies them.
#[derive(Clone, Debug, PartialEq, Eq)]
pub enum ScriptValue {
    Nil,
    Boolean(bool),
    Number(ScriptNumber),
    String(Vec<u8>),
    Table(usize),
    Function { name: Option<String>, address: String },
    Thread { address: String },
    UserData { address: String },
    /// The handle of a host object.
    Object(HostValue),
    /// A vector of three 32-bit float components, as bits.
    Vector(u32, u32, u32),
    Error(String),
}

/// The key-value pairs of each table, in the order the interpreter walks them.
pub struct ScriptHeap {
    pub tables: Vec<Vec<(ScriptValue, ScriptValue)>>,
}

impl ScriptHeap {
    /// Every table a pair names is in the heap, and no table holds two keys
    /// of the same whole number.
    pub open spec fn wf(&self) -> bool {
        &&& forall|t: int, i: int|
            0 <= t < self.tables@.len() && 0 <= i < self.tables@[t]@.len() ==> refs_ok(
                (#[trigger] self.tables@[t]@[i]).0,
                self.tables@.len() as int,
            ) && refs_ok(self.tables@[t]@[i].1, self.tables@.len() as int)
        &&& forall|t: int, i: int, j: int|
            0 <= t < self.tables@.len() && 0 <= i < self.tables@[t]@.len() && 0 <= j
                < self.tables@[t]@.len() && i != j && whole_key(#[trigger] self.tables@[t]@[i].0)
                is Some ==> whole_key(self.tables@[t]@[i].0) != whole_key(
                #[trigger] self.tables@[t]@[j].0,
            )
    }
}

/// The integer value of a key that is a whole number.
pub open spec fn whole_key(k: ScriptValue) -> Option<i64> {
    match k {
        ScriptValue::Number(n) => n.whole,
        _ => None,
    }
}

/// The order in which keys are written: whole numbers, other numbers, the rest.
pub open spec fn key_rank(k: ScriptValue) -> int {
    match k {
        ScriptValue::Number(n) => if n.whole is Some { 0 } else { 1 },
        _ => 2,
    }
}

/// A table without nested tables whose keys are positions from 1 or other
/// values the host holds, and whose values the host holds: strict
/// conversion owes success on it while its largest key fits a host list.
pub open spec fn strict_flat(pairs: Seq<(ScriptValue, ScriptValue)>) -> bool {
    forall|i: int| 0 <= i < pairs.len() ==> {
        let (k, v) = #[trigger] pairs[i];
        &&& !(k is Table) && !(v is Table)
        &&& leaf_spec(v) is Ok
        &&& match k {
            ScriptValue::Number(n) => n.whole is Some && n.whole->Some_0 >= 1,
            _ => leaf_spec(k) is Ok,
        }
    }
}

/// The largest whole-number key among the first `n` pairs, and at least 0.
pub open spec fn max_whole(pairs: Seq<(ScriptValue, ScriptValue)>, n: int) -> int
    decreases n,
{
    if n <= 0 {
        0
    } else {
        let m = max_whole(pairs, n - 1);
        match whole_key(pairs[n - 1].0) {
            Some(k) => if k > m { k as int } else { m },
            None => m,
        }
    }
}

/// The pairs among the first `n` whose key is neither a number nor written by position.
pub open spec fn assoc_pairs(pairs: Seq<(ScriptValue, ScriptValue)>, n: int) -> Seq<(ScriptValue, ScriptValue)>
    decreases n,
{
    if n <= 0 {
        seq![]
    } else if key_rank(pairs[n - 1].0) == 2 {
        assoc_pairs(pairs, n - 1).push(pairs[n - 1])
    } else {
        assoc_pairs(pairs, n - 1)
    }
}

pub open spec fn refs_ok(v: ScriptValue, n: int) -> bool {
    match v {
        ScriptValue::Table(t) => t < n,
        _ => true,
    }
}

/// A value on the host side of a conversion: a plain host value, a new host
/// string, a 3-element number list, or a list built by the same conversion.
#[derive(Clone, Debug, PartialEq, Eq)]
pub enum HostItem {
    Value(HostValue),
    Bytes(Vec<u8>),
    Text(String),
    Vector(u32, u32, u32),
    List(usize),
}

/// A host list built by a conversion: positional entries 1..=len, then the
/// associative writes in order.
pub struct HostList {
    pub items: Vec<HostItem>,
    pub assoc: Vec<(HostItem, HostItem)>,
}

/// How an entry of a safe conversion was obtained.
#[derive(Debug, PartialEq, Eq)]
pub enum ConversionVariant {
    Clean,
    ConversionError,
    Function,
    Thread,
    Userdata,
    ErrorAsValue,
    List(Vec<Option<ConversionKVP>>),
}

/// How the key and the value of one entry were obtained.
#[derive(Debug, PartialEq, Eq)]
pub struct ConversionKVP {
    pub key: ConversionVariant,
    pub value: ConversionVariant,
}

/// The text a plain variant is reported under.
pub open spec fn variant_label(v: ConversionVariant) -> Option<Seq<char>> {
    match v {
        ConversionVariant::Clean => None,
        ConversionVariant::ConversionError => Some("error"@),
        ConversionVariant::Function => Some("function"@),
        ConversionVariant::Thread => Some("thread"@),
        ConversionVariant::Userdata => Some("userdata"@),
        ConversionVariant::ErrorAsValue => Some("error_as_value"@),
        ConversionVariant::List(_) => None,
    }
}

impl ConversionVariant {
    /// The text this variant is reported under; none for a clean entry and
    /// for a nested list, which is reported entry by entry.
    pub fn label(&self) -> (r: Option<String>)
        ensures
            match r {
                Some(s) => variant_label(*self) == Some(s@),
                None => variant_label(*self) is None,
            },
    {
        match self {
            ConversionVariant::Clean => None,
            ConversionVariant::ConversionError => Some(owned("error")),
            ConversionVariant::Function => Some(owned("function")),
            ConversionVariant::Thread => Some(owned("thread")),
            ConversionVariant::Userdata => Some(owned("userdata")),
            ConversionVariant::ErrorAsValue => Some(owned("error_as_value")),
            ConversionVariant::List(_) => None,
        }
    }
}

/// The spec view of a host item.
pub enum ItemView {
    Value(HostValue),
    Bytes(Seq<u8>),
    Text(Seq<char>),
    Vector(u32, u32, u32),
    List(int),
}

pub open spec fn item_view(i: HostItem) -> ItemView {
    match i {
        HostItem::Value(v) => ItemView::Value(v),
        HostItem::Bytes(b) => ItemView::Bytes(b@),
        HostItem::Text(s) => ItemView::Text(s@),
        HostItem::Vector(x, y, z) => ItemView::Vector(x, y, z),
        HostItem::List(l) => ItemView::List(l as int),
    }
}

pub open spec fn host_null() -> HostValue {
    HostValue { tag: ValueTag::Null, data: 0 }
}

/// The position of the first zero byte, or the length where there is none.
pub open spec fn first_zero(b: Seq<u8>) -> int
    decreases b.len(),
{
    if b.len() == 0 {
        0
    } else if first_zero(b.drop_last()) < b.len() - 1 {
        first_zero(b.drop_last())
    } else if b.last() == 0 {
        b.len() - 1
    } else {
        b.len() as int
    }
}

/// The interpreter's name of the type of a value that the host cannot hold.
pub open spec fn unsupported_name(v: ScriptValue) -> Seq<char> {
    match v {
        ScriptValue::Function { .. } => "function"@,
        ScriptValue::Thread { .. } => "thread"@,
        _ => "userdata"@,
    }
}

/// What a value other than a table converts to in strict mode.
pub open spec fn leaf_spec(v: ScriptValue) -> Result<ItemView, Seq<char>> {
    match v {
        ScriptValue::Nil => Ok(ItemView::Value(host_null())),
        ScriptValue::Boolean(b) => Ok(
            ItemView::Value(
                HostValue { tag: ValueTag::Number, data: if b { HOST_TRUE_BITS } else { 0 } },
            ),
        ),
        ScriptValue::Number(n) => Ok(ItemView::Value(HostValue { tag: ValueTag::Number, data: n.bits })),
        ScriptValue::String(b) => if first_zero(b@) < b@.len() {
            Err("nul byte found in provided data at position: "@ + decimal(first_zero(b@) as nat))
        } else {
            Ok(ItemView::Bytes(b@))
        },
        ScriptValue::Object(h) => Ok(ItemView::Value(h)),
        ScriptValue::Vector(x, y, z) => Ok(ItemView::Vector(x, y, z)),
        ScriptValue::Error(e) => Ok(ItemView::Text(e@)),
        _ => Err("error converting Lua "@ + unsupported_name(v) + " to BYOND value (Unsupported value type)"@),
    }
}

/// The placeholder text of a function.
pub open spec fn function_text(name: Option<String>, address: String) -> Seq<char> {
    let shown = match name {
        Some(n) => n@,
        None => "anonymous function"@,
    };
    shown + ": "@ + address@
}

/// What a value other than a table converts to in safe mode: entities the
/// host cannot hold become placeholder text with their variant, and a failed
/// conversion becomes its message.
pub open spec fn safe_leaf_spec(v: ScriptValue) -> (ItemView, ConversionVariant) {
    match v {
        ScriptValue::Function { name, address } => (
            ItemView::Text(function_text(name, address)),
            ConversionVariant::Function,
        ),
        ScriptValue::Thread { address } => (ItemView::Text(address@), ConversionVariant::Thread),
        ScriptValue::UserData { address } => (ItemView::Text(address@), ConversionVariant::Userdata),
        ScriptValue::Error(e) => (ItemView::Text(e@), ConversionVariant::ErrorAsValue),
        _ => match leaf_spec(v) {
            Ok(i) => (i, ConversionVariant::Clean),
            Err(m) => (ItemView::Text(m), ConversionVariant::ConversionError),
        },
    }
}

fn copy_bytes(b: &Vec<u8>) -> (r: Vec<u8>)
    ensures
        r@ == b@,
{
    let mut r: Vec<u8> = Vec::new();
    let mut i: usize = 0;
    while i < b.len()
        invariant
            i <= b@.len(),
            r@ =~= b@.subrange(0, i as int),
        decreases b@.len() - i,
    {
        r.push(b[i]);
        i = i + 1;
    }
    r
}

fn find_zero(b: &Vec<u8>) -> (r: usize)
    ensures
        r == first_zero(b@),
{
    let mut i: usize = 0;
    while i < b.len() && b[i] != 0
        invariant
            i <= b@.len(),
            forall|j: int| 0 <= j < i ==> b@[j] != 0,
        decreases b@.len() - i,
    {
        i = i + 1;
    }
    proof {
        lemma_first_zero(b@, i as int);
    }
    i
}

proof fn lemma_first_zero(b: Seq<u8>, i: int)
    requires
        0 <= i <= b.len(),
        i < b.len() ==> b[i] == 0,
        forall|j: int| 0 <= j < i ==> b[j] != 0,
    ensures
        first_zero(b) == i,
    decreases b.len(),
{
    if b.len() > 0 {
        let s = b.drop_last();
        if i < b.len() - 1 {
            lemma_first_zero(s, i);
        } else {
            assert forall|j: int| 0 <= j < s.len() implies s[j] != 0 by {
                assert(s[j] == b[j]);
            }
            lemma_first_zero(s, s.len() as int);
        }
    }
}

fn unsupported_message(v: &ScriptValue) -> (r: String)
    ensures
        r@ == "error converting Lua "@ + unsupported_name(*v) + " to BYOND value (Unsupported value type)"@,
{
    let mut s = owned("error converting Lua ");
    match v {
        ScriptValue::Function { .. } => s.append("function"),
        ScriptValue::Thread { .. } => s.append("thread"),
        _ => s.append("userdata"),
    }
    s.append(" to BYOND value (Unsupported value type)");
    s
}

/// Converts a value other than a table in strict mode.
pub fn from_script_leaf(v: &ScriptValue) -> (r: Result<HostItem, String>)
    requires
        !(v is Table),
    ensures
        match r {
            Ok(i) => leaf_spec(*v) == Ok::<ItemView, Seq<char>>(item_view(i)),
            Err(m) => leaf_spec(*v) == Err::<ItemView, Seq<char>>(m@),
        },
{
    match v {
        ScriptValue::Nil => Ok(HostItem::Value(HostValue::null())),
        ScriptValue::Boolean(b) => Ok(
            HostItem::Value(
                HostValue { tag: ValueTag::Number, data: if *b { HOST_TRUE_BITS } else { 0 } },
            ),
        ),
        ScriptValue::Number(n) => Ok(HostItem::Value(HostValue { tag: ValueTag::Number, data: n.bits })),
        ScriptValue::String(b) => {
            let z = find_zero(b);
            if z < b.len() {
                let mut m = owned("nul byte found in provided data at position: ");
                push_decimal(&mut m, z as u64);
                Err(m)
            } else {
                Ok(HostItem::Bytes(copy_bytes(b)))
            }
        },
        ScriptValue::Object(h) => Ok(HostItem::Value(*h)),
        ScriptValue::Vector(x, y, z) => Ok(HostItem::Vector(*x, *y, *z)),
        ScriptValue::Error(e) => Ok(HostItem::Text(e.clone())),
        _ => Err(unsupported_message(v)),
    }
}

/// Converts a value other than a table in safe mode; never fails.
pub fn safe_from_script_leaf(v: &ScriptValue) -> (r: (HostItem, ConversionVariant))
    requires
        !(v is Table),
    ensures
        (item_view(r.0), r.1) == safe_leaf_spec(*v),
{
    match v {
        ScriptValue::Function { name, address } => {
            let mut s = match name {
                Some(n) => n.clone(),
                None => owned("anonymous function"),
            };
            s.append(": ");
            s.append(address.as_str());
            (HostItem::Text(s), ConversionVariant::Function)
        },
        ScriptValue::Thread { address } => (HostItem::Text(address.clone()), ConversionVariant::Thread),
        ScriptValue::UserData { address } => (
            HostItem::Text(address.clone()),
            ConversionVariant::Userdata,
        ),
        ScriptValue::Error(e) => (HostItem::Text(e.clone()), ConversionVariant::ErrorAsValue),
        _ => match from_script_leaf(v) {
            Ok(i) => (i, ConversionVariant::Clean),
            Err(m) => (HostItem::Text(m), ConversionVariant::ConversionError),
        },
    }
}


/// The number of tables not visited yet.
pub open spec fn n_free(s: Seq<Option<usize>>) -> nat
    decreases s.len(),
{
    if s.len() == 0 {
        0
    } else {
        n_free(s.drop_last()) + if s.last() is None { 1nat } else { 0nat }
    }
}

proof fn lemma_n_free_update(s: Seq<Option<usize>>, i: int, v: usize)
    requires
        0 <= i < s.len(),
        s[i] is None,
    ensures
        n_free(s) >= 1,
        n_free(s.update(i, Some(v))) == n_free(s) - 1,
    decreases s.len(),
{
    let u = s.update(i, Some(v));
    if i < s.len() - 1 {
        assert(u.drop_last() =~= s.drop_last().update(i, Some(v)));
        lemma_n_free_update(s.drop_last(), i, v);
    } else {
        assert(u.drop_last() =~= s.drop_last());
    }
}

/// The state of one conversion: the list made for each table visited so far.
pub struct Conversion {
    pub visited: Vec<Option<usize>>,
    pub lists: Vec<HostList>,
    /// The tables whose lists are complete.
    pub done: Ghost<Set<int>>,
}

/// A converted entry holds what its script value converts to: the list made
/// for a table, or the conversion of any other value.
pub open spec fn entry_ok(v: ScriptValue, item: HostItem, safe: bool, visited: Seq<Option<usize>>) -> bool {
    match v {
        ScriptValue::Table(t) => 0 <= t < visited.len() && visited[t as int] is Some && item_view(item)
            == ItemView::List(visited[t as int]->Some_0 as int),
        _ => if safe {
            item_view(item) == safe_leaf_spec(v).0
        } else {
            leaf_spec(v) == Ok::<ItemView, Seq<char>>(item_view(item))
        },
    }
}

/// Once a table was visited, it keeps its list.
pub open spec fn keeps_visits(a: Seq<Option<usize>>, b: Seq<Option<usize>>) -> bool {
    &&& a.len() == b.len()
    &&& forall|t: int| 0 <= t < a.len() && #[trigger] a[t] is Some ==> b[t] == a[t]
}

impl Conversion {
    /// One list per visited table: visited tables name distinct lists, and
    /// the lists are exactly as many as the visited tables.
    pub open spec fn wf(&self, n: int) -> bool {
        &&& self.visited@.len() == n
        &&& self.lists@.len() + n_free(self.visited@) == n
        &&& forall|t: int|
            0 <= t < n && #[trigger] self.visited@[t] is Some ==> self.visited@[t]->Some_0
                < self.lists@.len()
        &&& forall|t1: int, t2: int|
            0 <= t1 < n && 0 <= t2 < n && t1 != t2 && #[trigger] self.visited@[t1] is Some
                && #[trigger] self.visited@[t2] is Some ==> self.visited@[t1] != self.visited@[t2]
    }

    /// A conversion that has visited nothing yet.
    pub fn new(n: usize) -> (r: Conversion)
        ensures
            r.wf(n as int),
            r.done@ == Set::<int>::empty(),
            forall|t: int| 0 <= t < n ==> r.visited@[t] is None,
    {
        let mut visited: Vec<Option<usize>> = Vec::new();
        let mut i: usize = 0;
        while i < n
            invariant
                i <= n,
                visited@.len() == i,
                n_free(visited@) == i,
                forall|t: int| 0 <= t < i ==> visited@[t] is None,
            decreases n - i,
        {
            let ghost prev = visited@;
            visited.push(None);
            assert(visited@.drop_last() =~= prev);
            i = i + 1;
        }
        Conversion { visited, lists: Vec::new(), done: Ghost(Set::empty()) }
    }
}

/// What a conversion step leaves of the state it was given.
pub open spec fn step_ok(old_c: Conversion, new_c: Conversion, n: int) -> bool {
    &&& new_c.wf(n)
    &&& keeps_visits(old_c.visited@, new_c.visited@)
    &&& n_free(new_c.visited@) <= n_free(old_c.visited@)
    &&& new_c.lists@.len() >= old_c.lists@.len()
    &&& forall|l: int| 0 <= l < old_c.lists@.len() ==> new_c.lists@[l] == old_c.lists@[l]
}

proof fn lemma_step_trans(a: Conversion, b: Conversion, c: Conversion, n: int)
    requires
        step_ok(a, b, n),
        step_ok(b, c, n),
    ensures
        step_ok(a, c, n),
{
    assert forall|t: int| 0 <= t < a.visited@.len() && #[trigger] a.visited@[t] is Some implies c.visited@[t]
        == a.visited@[t] by {
        assert(b.visited@[t] == a.visited@[t]);
    }
    assert forall|l: int| 0 <= l < a.lists@.len() implies c.lists@[l] == a.lists@[l] by {
        assert(b.lists@[l] == a.lists@[l]);
    }
}

proof fn lemma_max_whole_nonneg(pairs: Seq<(ScriptValue, ScriptValue)>, n: int)
    ensures
        max_whole(pairs, n) >= 0,
        max_whole(pairs, n) <= i64::MAX,
        forall|i: int| 0 <= i < n && #[trigger] whole_key(pairs[i].0) is Some ==> whole_key(pairs[i].0)->Some_0 <= max_whole(pairs, n),
    decreases n,
{
    if n > 0 {
        lemma_max_whole_nonneg(pairs, n - 1);
    }
}

proof fn lemma_entry_mono(v: ScriptValue, item: HostItem, safe: bool, a: Seq<Option<usize>>, b: Seq<Option<usize>>)
    requires
        entry_ok(v, item, safe, a),
        keeps_visits(a, b),
    ensures
        entry_ok(v, item, safe, b),
{
    if let ScriptValue::Table(t) = v {
        assert(a[t as int] is Some);
    }
}

proof fn lemma_positional_mono(
    pairs: Seq<(ScriptValue, ScriptValue)>,
    n: int,
    items: Seq<HostItem>,
    variants: Seq<Option<ConversionKVP>>,
    safe: bool,
    a: Seq<Option<usize>>,
    b: Seq<Option<usize>>,
)
    requires
        positional_ok(pairs, n, items, variants, safe, a),
        keeps_visits(a, b),
    ensures
        positional_ok(pairs, n, items, variants, safe, b),
{
    assert forall|i: int|
        0 <= i < n && #[trigger] whole_key(pairs[i].0) is Some && 1 <= whole_key(pairs[i].0)->Some_0
            <= items.len() implies entry_ok(pairs[i].1, items[whole_key(pairs[i].0)->Some_0 - 1], safe, b) by {
        lemma_entry_mono(pairs[i].1, items[whole_key(pairs[i].0)->Some_0 - 1], safe, a, b);
    }
}

/// A key the host can hold: a table, a position from 1, or another value
/// that converts.
pub open spec fn key_convertible(k: ScriptValue) -> bool {
    match k {
        ScriptValue::Table(_) => true,
        ScriptValue::Number(n) => n.whole is Some && n.whole->Some_0 >= 1,
        _ => leaf_spec(k) is Ok,
    }
}

/// A value the host can hold: a table, or a value that converts.
pub open spec fn value_convertible(v: ScriptValue) -> bool {
    v is Table || leaf_spec(v) is Ok
}

/// Every entry of the table is one the host can hold, and its largest
/// position fits a host list.
pub open spec fn host_holds(pairs: Seq<(ScriptValue, ScriptValue)>) -> bool {
    &&& max_whole(pairs, pairs.len() as int) <= MAX_LIST_LEN
    &&& forall|i: int| 0 <= i < pairs.len() ==> key_convertible((#[trigger] pairs[i]).0) && value_convertible(pairs[i].1)
}

/// The list made for a table holds its entries (whatever its diagnostics).
pub open spec fn list_ok(pairs: Seq<(ScriptValue, ScriptValue)>, list: HostList, safe: bool, visited: Seq<Option<usize>>) -> bool {
    exists|v: ConversionVariant| table_ok(pairs, list, v, safe, visited)
}

impl Conversion {
    /// Every completed table was visited, and its list holds its entries.
    pub open spec fn content_ok(&self, heap: ScriptHeap, safe: bool) -> bool {
        forall|u: int| #[trigger] self.done@.contains(u) ==> 0 <= u < heap.tables@.len() && self.visited@[u] is Some
            && list_ok(heap.tables@[u]@, self.lists@[self.visited@[u]->Some_0 as int], safe, self.visited@)
    }
}

/// Completed tables stay completed, and only tables visited in between complete.
pub open spec fn done_step(a: Conversion, b: Conversion, heap: ScriptHeap, safe: bool) -> bool {
    &&& b.content_ok(heap, safe)
    &&& forall|u: int| #[trigger] a.done@.contains(u) ==> b.done@.contains(u)
    &&& forall|u: int| #[trigger] b.done@.contains(u) ==> a.done@.contains(u) || a.visited@[u] is None
}

/// Every table visited in between was completed.
pub open spec fn all_new_done(a: Conversion, b: Conversion, n: int) -> bool {
    forall|u: int| 0 <= u < n && #[trigger] b.visited@[u] is Some && a.visited@[u] is None ==> b.done@.contains(u)
}

/// Some table the conversion reached holds an entry the host cannot hold.
pub open spec fn refused_reached(heap: ScriptHeap, c: Conversion) -> bool {
    exists|u: int| 0 <= u < heap.tables@.len() && c.visited@[u] is Some && !#[trigger] host_holds(heap.tables@[u]@)
}

proof fn lemma_table_ok_mono(pairs: Seq<(ScriptValue, ScriptValue)>, list: HostList, v: ConversionVariant, safe: bool, a: Seq<Option<usize>>, b: Seq<Option<usize>>)
    requires
        table_ok(pairs, list, v, safe, a),
        keeps_visits(a, b),
    ensures
        table_ok(pairs, list, v, safe, b),
{
    let vs = match v {
        ConversionVariant::List(x) => x@,
        _ => Seq::empty(),
    };
    lemma_positional_mono(pairs, pairs.len() as int, list.items@, vs, safe, a, b);
    lemma_assoc_mono(assoc_pairs(pairs, pairs.len() as int), list.assoc@, safe, a, b);
}

/// The content of completed tables survives a step that keeps visits and
/// the lists they name.
proof fn lemma_content_keep(heap: ScriptHeap, safe: bool, a: Conversion, b: Conversion)
    requires
        a.content_ok(heap, safe),
        a.wf(heap.tables@.len() as int),
        keeps_visits(a.visited@, b.visited@),
        b.done@ == a.done@,
        forall|u: int| #[trigger] a.done@.contains(u) ==> b.lists@[a.visited@[u]->Some_0 as int] == a.lists@[a.visited@[u]->Some_0 as int],
    ensures
        b.content_ok(heap, safe),
{
    assert forall|u: int| #[trigger] b.done@.contains(u) implies 0 <= u < heap.tables@.len() && b.visited@[u] is Some
        && list_ok(heap.tables@[u]@, b.lists@[b.visited@[u]->Some_0 as int], safe, b.visited@) by {
        assert(a.done@.contains(u));
        assert(a.visited@[u] is Some);
        let l = a.visited@[u]->Some_0 as int;
        let v = choose|v: ConversionVariant| table_ok(heap.tables@[u]@, a.lists@[l], v, safe, a.visited@);
        assert(b.lists@[l] == a.lists@[l]);
        assert(b.visited@[u] == a.visited@[u]);
        lemma_table_ok_mono(heap.tables@[u]@, a.lists@[l], v, safe, a.visited@, b.visited@);
    }
}

proof fn lemma_done_trans(heap: ScriptHeap, safe: bool, a: Conversion, b: Conversion, c: Conversion, n: int)
    requires
        n == heap.tables@.len(),
        step_ok(a, b, n),
        step_ok(b, c, n),
        done_step(a, b, heap, safe),
        done_step(b, c, heap, safe),
    ensures
        done_step(a, c, heap, safe),
        all_new_done(a, b, n) && all_new_done(b, c, n) ==> all_new_done(a, c, n),
        refused_reached(heap, b) ==> refused_reached(heap, c),
{
    assert forall|u: int| #[trigger] c.done@.contains(u) implies a.done@.contains(u) || a.visited@[u] is None by {
        assert(0 <= u < n);
        if !b.done@.contains(u) {
            assert(b.visited@[u] is None);
            if 0 <= u < a.visited@.len() && a.visited@[u] is Some {
                assert(b.visited@[u] == a.visited@[u]);
            }
        }
    }
    if all_new_done(a, b, n) && all_new_done(b, c, n) {
        assert forall|u: int| 0 <= u < n && #[trigger] c.visited@[u] is Some && a.visited@[u] is None implies c.done@.contains(u) by {
            if b.visited@[u] is Some {
                assert(b.done@.contains(u));
            }
        }
    }
    if refused_reached(heap, b) {
        let u = choose|u: int| 0 <= u < heap.tables@.len() && b.visited@[u] is Some && !#[trigger] host_holds(heap.tables@[u]@);
        assert(c.visited@[u] == b.visited@[u]);
    }
}

/// Every table visited in between, but `t`, was completed.
pub open spec fn new_done_but(a: Conversion, b: Conversion, n: int, t: int) -> bool {
    forall|u: int| 0 <= u < n && #[trigger] b.visited@[u] is Some && a.visited@[u] is None && u != t ==> b.done@.contains(u)
}

proof fn lemma_track(heap: ScriptHeap, safe: bool, o: Conversion, b: Conversion, c: Conversion, n: int, t: int, ok: bool)
    requires
        n == heap.tables@.len(),
        0 <= t < n,
        step_ok(o, b, n),
        step_ok(b, c, n),
        done_step(o, b, heap, safe),
        done_step(b, c, heap, safe),
        new_done_but(o, b, n, t),
        b.visited@[t] is Some,
        !b.done@.contains(t),
        ok ==> all_new_done(b, c, n),
    ensures
        step_ok(o, c, n),
        done_step(o, c, heap, safe),
        !c.done@.contains(t),
        ok ==> new_done_but(o, c, n, t),
{
    lemma_step_trans(o, b, c, n);
    lemma_done_trans(heap, safe, o, b, c, n);
    if ok {
        assert forall|u: int| 0 <= u < n && #[trigger] c.visited@[u] is Some && o.visited@[u] is None && u != t implies c.done@.contains(u) by {
            if b.visited@[u] is Some {
                assert(b.done@.contains(u));
            }
        }
    }
}

/// A visited table with an entry the host cannot hold, or too large a
/// position, is a refusal the conversion reached.
proof fn lemma_refuse_at(heap: ScriptHeap, c: Conversion, t: int, i: int)
    requires
        0 <= t < heap.tables@.len(),
        c.visited@[t] is Some,
        0 <= i < heap.tables@[t]@.len(),
        !key_convertible(heap.tables@[t]@[i].0) || !value_convertible(heap.tables@[t]@[i].1),
    ensures
        refused_reached(heap, c),
{
    assert(!host_holds(heap.tables@[t]@));
}

/// Converts one value of a table.
fn convert_value(heap: &ScriptHeap, v: &ScriptValue, safe: bool, conv: &mut Conversion) -> (r:
    Result<(HostItem, ConversionVariant), String>)
    requires
        heap.wf(),
        refs_ok(*v, heap.tables@.len() as int),
        old(conv).wf(heap.tables@.len() as int),
        old(conv).content_ok(*heap, safe),
    ensures
        done_step(*old(conv), *final(conv), *heap, safe),
        r is Ok ==> all_new_done(*old(conv), *final(conv), heap.tables@.len() as int),
        step_ok(*old(conv), *final(conv), heap.tables@.len() as int),
        safe ==> r is Ok,
        r is Ok ==> entry_ok(*v, r->Ok_0.0, safe, final(conv).visited@),
        safe && !(v is Table) ==> r is Ok && r->Ok_0.1 == safe_leaf_spec(*v).1,
        !(v is Table) ==> final(conv).visited@ == old(conv).visited@ && final(conv).lists@
            == old(conv).lists@,
        !safe && !(v is Table) ==> (r is Ok <==> leaf_spec(*v) is Ok),
        r is Err ==> refused_reached(*heap, *final(conv)) || (!(v is Table) && leaf_spec(*v) is Err),
        r is Ok && v is Table ==> (r->Ok_0.1 is Clean || r->Ok_0.1 is List),
        match *v {
            ScriptValue::Table(u) => u < old(conv).visited@.len() && old(conv).visited@[u as int] is Some ==> r is Ok
                && r->Ok_0.1 == ConversionVariant::Clean,
            _ => true,
        },
    decreases n_free(old(conv).visited@), 1nat,
{
    match v {
        ScriptValue::Table(t) => convert_from_table_impl(heap, *t, safe, conv),
        _ => if safe {
            Ok(safe_from_script_leaf(v))
        } else {
            match from_script_leaf(v) {
                Ok(i) => Ok((i, ConversionVariant::Clean)),
                Err(m) => Err(m),
            }
        },
    }
}

/// `s` is `m` followed by nothing but spaces.
pub open spec fn padded(s: Seq<char>, m: Seq<char>) -> bool {
    &&& s.len() >= m.len()
    &&& s.subrange(0, m.len() as int) == m
    &&& forall|i: int| m.len() <= i < s.len() ==> s[i] == ' '
}

/// In safe mode, a key other than a table whose conversion failed.
pub open spec fn error_key(k: ScriptValue, safe: bool) -> bool {
    safe && !(k is Table) && safe_leaf_spec(k).1 == ConversionVariant::ConversionError
}

/// The message a failed key stands for.
pub open spec fn key_message(k: ScriptValue) -> Seq<char> {
    match safe_leaf_spec(k).0 {
        ItemView::Text(m) => m,
        _ => seq![],
    }
}

/// Whether `s` is one of `used`.
fn is_used(used: &Vec<String>, s: &String) -> (r: bool)
    ensures
        r == exists|j: int| 0 <= j < used@.len() && used@[j]@ == s@,
{
    let mut i: usize = 0;
    while i < used.len()
        invariant
            i <= used@.len(),
            forall|j: int| 0 <= j < i ==> used@[j]@ != s@,
        decreases used@.len() - i,
    {
        if str_eq(used[i].as_str(), s.as_str()) {
            return true;
        }
        i = i + 1;
    }
    false
}

/// Lengthens a key's error message with spaces until no earlier key took it,
/// and records it as taken. The taken messages are kept in a vector, whose
/// membership test is proved here; a set of strings would leave it unproved.
fn distinct_message(used: &mut Vec<String>, m: String) -> (r: String)
    ensures
        final(used)@ == old(used)@.push(r),
        forall|j: int| 0 <= j < old(used)@.len() ==> old(used)@[j]@ != r@,
        padded(r@, m@),
{
    let mut longest: usize = 0;
    let mut i: usize = 0;
    while i < used.len()
        invariant
            i <= used@.len(),
            forall|j: int| 0 <= j < i ==> used@[j]@.len() <= longest,
        decreases used@.len() - i,
    {
        let l = used[i].unicode_len();
        if l > longest {
            longest = l;
        }
        i = i + 1;
    }
    let mut s = m;
    let ghost m0 = s@;
    assert(s@.subrange(0, m0.len() as int) =~= m0);
    while is_used(used, &s)
        invariant
            forall|j: int| 0 <= j < used@.len() ==> used@[j]@.len() <= longest,
            padded(s@, m0),
        decreases longest + 1 - s@.len(),
    {
        proof {
            let j = choose|j: int| 0 <= j < used@.len() && used@[j]@ == s@;
            assert(used@[j]@.len() <= longest);
        }
        let ghost before = s@;
        proof {
            reveal_strlit(" ");
        }
        s.append(" ");
        proof {
            assert(" "@ =~= seq![' ']);
            assert(s@ =~= before.push(' '));
            assert(s@.subrange(0, m0.len() as int) =~= before.subrange(0, m0.len() as int));
        }
    }
    let r = s.clone();
    used.push(s);
    r
}

/// Converts one key of a table; in safe mode a key whose conversion failed
/// becomes its message, made distinct from the messages of earlier keys.
fn convert_key(
    heap: &ScriptHeap,
    k: &ScriptValue,
    safe: bool,
    conv: &mut Conversion,
    used: &mut Vec<String>,
) -> (r: Result<(HostItem, ConversionVariant), String>)
    requires
        heap.wf(),
        refs_ok(*k, heap.tables@.len() as int),
        old(conv).wf(heap.tables@.len() as int),
        old(conv).content_ok(*heap, safe),
    ensures
        done_step(*old(conv), *final(conv), *heap, safe),
        r is Ok ==> all_new_done(*old(conv), *final(conv), heap.tables@.len() as int),
        step_ok(*old(conv), *final(conv), heap.tables@.len() as int),
        safe ==> r is Ok,
        r is Ok && !(safe && r->Ok_0.1 == ConversionVariant::ConversionError) ==> entry_ok(
            *k,
            r->Ok_0.0,
            safe,
            final(conv).visited@,
        ),
        safe && !(k is Table) ==> r is Ok && r->Ok_0.1 == safe_leaf_spec(*k).1,
        r is Ok && k is Table ==> !(r->Ok_0.1 is ConversionError),
        !safe && !(k is Table) ==> (r is Ok <==> leaf_spec(*k) is Ok),
        error_key(*k, safe) ==> r is Ok && r->Ok_0.0 is Text && padded(r->Ok_0.0->Text_0@, key_message(*k))
            && final(used)@ == old(used)@.push(r->Ok_0.0->Text_0) && (forall|j: int| 0 <= j < old(used)@.len()
            ==> old(used)@[j]@ != r->Ok_0.0->Text_0@),
        !error_key(*k, safe) ==> final(used)@ == old(used)@,
        r is Err ==> refused_reached(*heap, *final(conv)) || (!(k is Table) && leaf_spec(*k) is Err),
        r is Ok && k is Table ==> (r->Ok_0.1 is Clean || r->Ok_0.1 is List),
        match *k {
            ScriptValue::Table(u) => u < old(conv).visited@.len() && old(conv).visited@[u as int] is Some ==> r is Ok
                && r->Ok_0.1 == ConversionVariant::Clean,
            _ => true,
        },
    decreases n_free(old(conv).visited@), 1nat,
{
    match k {
        ScriptValue::Table(t) => convert_from_table_impl(heap, *t, safe, conv),
        _ => if safe {
            let (item, variant) = safe_from_script_leaf(k);
            match item {
                HostItem::Text(m) => {
                    if matches!(variant, ConversionVariant::ConversionError) {
                        let d = distinct_message(used, m);
                        Ok((HostItem::Text(d), variant))
                    } else {
                        Ok((HostItem::Text(m), variant))
                    }
                },
                other => Ok((other, variant)),
            }
        } else {
            match from_script_leaf(k) {
                Ok(i) => Ok((i, ConversionVariant::Clean)),
                Err(m) => Err(m),
            }
        },
    }
}

/// Converts table `t` to a host list, or hands back the list already made
/// for it, so that a table reached again through a cycle is never descended
/// into twice. Whole-number keys are written by position, into a list sized
/// to the largest of them, before any other key; in safe mode nothing fails
/// and the diagnostic list records how each entry was obtained.
pub fn convert_from_table_impl(heap: &ScriptHeap, t: usize, safe: bool, conv: &mut Conversion) -> (r: Result<
    (HostItem, ConversionVariant),
    String,
>)
    requires
        heap.wf(),
        t < heap.tables@.len(),
        old(conv).wf(heap.tables@.len() as int),
        old(conv).content_ok(*heap, safe),
    ensures
        done_step(*old(conv), *final(conv), *heap, safe),
        r is Ok ==> all_new_done(*old(conv), *final(conv), heap.tables@.len() as int),
        r is Err ==> refused_reached(*heap, *final(conv)),
        step_ok(*old(conv), *final(conv), heap.tables@.len() as int),
        safe ==> r is Ok,
        r is Ok ==> !(r->Ok_0.1 is ConversionError),
        r is Ok ==> final(conv).visited@[t as int] is Some && item_view(r->Ok_0.0) == ItemView::List(
            final(conv).visited@[t as int]->Some_0 as int,
        ),
        old(conv).visited@[t as int] is Some ==> r is Ok && r->Ok_0.1 == ConversionVariant::Clean
            && final(conv).visited@ == old(conv).visited@ && final(conv).lists@ == old(conv).lists@,
        !safe && old(conv).visited@[t as int] is None && strict_flat(heap.tables@[t as int]@) && max_whole(
            heap.tables@[t as int]@,
            heap.tables@[t as int]@.len() as int,
        ) <= MAX_LIST_LEN ==> r is Ok,
        old(conv).visited@[t as int] is None && r is Ok ==> table_ok(
            heap.tables@[t as int]@,
            final(conv).lists@[final(conv).visited@[t as int]->Some_0 as int],
            r->Ok_0.1,
            safe,
            final(conv).visited@,
        ),
        r is Ok ==> (r->Ok_0.1 is Clean || r->Ok_0.1 is List),
        safe && old(conv).visited@[t as int] is None && r is Ok ==> r->Ok_0.1 is List && diag_ok(
            heap.tables@[t as int]@,
            r->Ok_0.1->List_0@,
            final(conv).lists@[final(conv).visited@[t as int]->Some_0 as int].items@.len() as int,
            t as int,
        ),
    decreases n_free(old(conv).visited@), 0nat,
{
    if let Some(id) = conv.visited[t] {
        return Ok((HostItem::List(id), ConversionVariant::Clean));
    }
    assert(old(conv).visited@[t as int] is None);
    let ghost n = heap.tables@.len() as int;
    let id = conv.lists.len();
    conv.lists.push(HostList { items: Vec::new(), assoc: Vec::new() });
    proof {
        lemma_n_free_update(conv.visited@, t as int, id);
    }
    conv.visited.set(t, Some(id));
    assert(conv.wf(n)) by {
        assert forall|t1: int| 0 <= t1 < n && #[trigger] conv.visited@[t1] is Some implies conv.visited@[t1]->Some_0 < conv.lists@.len() by {
            if t1 != t {
                assert(old(conv).visited@[t1] is Some);
            }
        }
        assert forall|t1: int, t2: int|
            0 <= t1 < n && 0 <= t2 < n && t1 != t2 && #[trigger] conv.visited@[t1] is Some
                && #[trigger] conv.visited@[t2] is Some implies conv.visited@[t1] != conv.visited@[t2] by {
            if t1 != t && t2 != t {
                assert(old(conv).visited@[t1] is Some && old(conv).visited@[t2] is Some);
            } else if t1 == t {
                assert(old(conv).visited@[t2] is Some);
            } else {
                assert(old(conv).visited@[t1] is Some);
            }
        }
    }
    let ghost entry_conv = *conv;
    assert(step_ok(*old(conv), entry_conv, n)) by {
        assert forall|t1: int| 0 <= t1 < old(conv).visited@.len() && #[trigger] old(conv).visited@[t1] is Some implies entry_conv.visited@[t1] == old(conv).visited@[t1] by {
            assert(t1 != t);
        }
    }
    proof {
        assert forall|u: int| #[trigger] old(conv).done@.contains(u) implies conv.lists@[old(conv).visited@[u]->Some_0 as int]
            == old(conv).lists@[old(conv).visited@[u]->Some_0 as int] by {
            assert(old(conv).visited@[u] is Some);
        }
        lemma_content_keep(*heap, safe, *old(conv), *conv);
        assert(!old(conv).done@.contains(t as int));
        assert(done_step(*old(conv), *conv, *heap, safe));
        assert(new_done_but(*old(conv), *conv, n, t as int));
    }
    let pairs = &heap.tables[t];
    let max = max_whole_key(pairs);
    proof {
        lemma_max_whole_nonneg(pairs@, pairs@.len() as int);
    }
    let len_ok = max <= MAX_LIST_LEN as i64;
    if !len_ok && !safe {
        proof {
            assert(!host_holds(heap.tables@[t as int]@));
        }
        return Err(owned("list length out of range"));
    }
    let len: usize = if len_ok { max as usize } else { 0 };
    let mut items: Vec<HostItem> = Vec::new();
    let mut variants: Vec<Option<ConversionKVP>> = Vec::new();
    let mut i: usize = 0;
    while i < len
        invariant
            i <= len,
            items@.len() == i,
            safe ==> variants@.len() == i,
            !safe ==> variants@.len() == 0,
            forall|j: int| 0 <= j < i ==> item_view(#[trigger] items@[j]) == ItemView::Value(host_null()),
            forall|j: int| 0 <= j < variants@.len() ==> #[trigger] variants@[j] is None,
        decreases len - i,
    {
        items.push(HostItem::Value(HostValue::null()));
        if safe {
            variants.push(None);
        }
        i = i + 1;
    }
    let mut assoc: Vec<(HostItem, HostItem)> = Vec::new();
    let mut used: Vec<String> = Vec::new();
    let ghost mut kvs = initial_kvs(pairs@);
    proof {
        assert forall|j: int| 0 <= j < pairs@.len() implies {
            &&& variant_ok((#[trigger] pairs@[j]).1, kvs[j].1, t as int)
            &&& pairs@[j].0 is Number ==> kvs[j].0 == ConversionVariant::Clean
            &&& !(pairs@[j].0 is Number) ==> variant_ok(pairs@[j].0, kvs[j].0, t as int)
        } by {}
        if safe {
            assert(variants@.subrange(len as int, variants@.len() as int) =~= Seq::<Option<ConversionKVP>>::empty());
        }
    }
    // Whole-number keys, by position.
    let mut i: usize = 0;
    while i < pairs.len()
        invariant
            heap.wf(),
            t < heap.tables@.len(),
            n == heap.tables@.len() as int,
            old(conv).visited@[t as int] is None,
            entry_conv.visited@[t as int] == Some(id),
            pairs@ == heap.tables@[t as int]@,
            i <= pairs@.len(),
            conv.wf(n),
            step_ok(entry_conv, *conv, n),
            conv.visited@[t as int] == Some(id),
            conv.content_ok(*heap, safe),
            done_step(*old(conv), *conv, *heap, safe),
            new_done_but(*old(conv), *conv, n, t as int),
            !conv.done@.contains(t as int),
            id < entry_conv.lists@.len(),
            items@.len() == len,
            safe ==> variants@.len() >= len,
            len <= max_whole(pairs@, pairs@.len() as int),
            len <= MAX_LIST_LEN,
            len_ok ==> len == max_whole(pairs@, pairs@.len() as int),
            !len_ok ==> safe,
            step_ok(*old(conv), *conv, n),
            n_free(conv.visited@) < n_free(old(conv).visited@),
            positional_ok(pairs@, i as int, items@, variants@, safe, conv.visited@),
            safe ==> kvs_ok(pairs@, kvs, t as int),
            safe ==> variants@.len() == len + appended(pairs@, kvs, len as int, 1, i as int).len()
                && variants@.subrange(len as int, variants@.len() as int) == appended(pairs@, kvs, len as int, 1, i as int),
            holes_ok(pairs@, i as int, items@, variants@, safe),
        decreases pairs@.len() - i,
    {
        let (key, value) = &pairs[i];
        if let ScriptValue::Number(num) = key {
            if let Some(k) = num.whole {
                proof {
                    assert(refs_ok(heap.tables@[t as int]@[i as int].1, n));
                }
                let ghost before = *conv;
                let converted = convert_value(heap, value, safe, conv);
                proof {
                    assert(before.visited@[t as int] is Some);
                    lemma_track(*heap, safe, *old(conv), before, *conv, n, t as int, converted is Ok);
                    lemma_step_trans(*old(conv), before, *conv, n);
                    lemma_step_trans(entry_conv, before, *conv, n);
                    lemma_positional_mono(pairs@, i as int, items@, variants@, safe, before.visited@, conv.visited@);
                }
                match converted {
                    Ok((item, variant)) => {
                        let ghost vv = variant;
                        let ghost kvs0 = kvs;
                        proof {
                            if safe {
                                assert(pairs@[i as int].1 == *value && pairs@[i as int].0 == *key);
                                kvs = kvs.update(i as int, (ConversionVariant::Clean, vv));
                                lemma_kvs_step(pairs@, kvs0, i as int, ConversionVariant::Clean, vv, t as int, len as int);
                            }
                        }
                        if 1 <= k && k <= len as i64 {
                            let ghost old_items = items@;
                            let ghost old_variants = variants@;
                            let ghost p = k - 1;
                            proof {
                                assert forall|j: int| 0 <= j < i implies #[trigger] whole_key(pairs@[j].0) != Some(((p as int) + 1) as i64) by {
                                    assert(heap.tables@[t as int]@[i as int] == pairs@[i as int]);
                                    assert(heap.tables@[t as int]@[j] == pairs@[j]);
                                }
                                assert(unclaimed(pairs@, i as int, p as int));
                            }
                            items.set((k - 1) as usize, item);
                            if safe {
                                if !matches!(variant, ConversionVariant::Clean) {
                                    variants.set((k - 1) as usize, Some(ConversionKVP { key: variant, value: ConversionVariant::Clean }));
                                }
                            }
                            proof {
                                if safe {
                                    assert(variants@.subrange(len as int, variants@.len() as int) =~= old_variants.subrange(len as int, old_variants.len() as int));
                                    assert(diag_class(pairs@[i as int].0, len as int) == 0);
                                }
                            }
                            proof {
                                assert forall|q: int|
                                    0 <= q < items@.len() && #[trigger] unclaimed(pairs@, i + 1, q) implies item_view(items@[q])
                                        == ItemView::Value(host_null()) && (safe ==> variants@[q] is None) by {
                                    assert(whole_key(pairs@[i as int].0) == Some(k));
                                    assert(q != p);
                                    assert forall|j: int| 0 <= j < i implies #[trigger] whole_key(pairs@[j].0) != Some((q + 1) as i64) by {
                                        assert(whole_key(pairs@[j].0) != Some((q + 1) as i64));
                                    }
                                    assert(unclaimed(pairs@, i as int, q));
                                }
                                assert forall|j: int|
                                    0 <= j < i + 1 && #[trigger] whole_key(pairs@[j].0) is Some && 1 <= whole_key(pairs@[j].0)->Some_0
                                        <= items@.len() implies {
                                        let kj = whole_key(pairs@[j].0)->Some_0 as int;
                                        &&& entry_ok(pairs@[j].1, items@[kj - 1], safe, conv.visited@)
                                        &&& safe && !(pairs@[j].1 is Table) ==> variants@[kj - 1] == if safe_leaf_spec(
                                            pairs@[j].1,
                                        ).1 == ConversionVariant::Clean {
                                            None::<ConversionKVP>
                                        } else {
                                            Some(ConversionKVP { key: safe_leaf_spec(pairs@[j].1).1, value: ConversionVariant::Clean })
                                        }
                                    } by {
                                    if j < i {
                                        assert(heap.tables@[t as int]@[i as int] == pairs@[i as int]);
                                        assert(heap.tables@[t as int]@[j] == pairs@[j]);
                                        assert(whole_key(pairs@[j].0) != whole_key(pairs@[i as int].0));
                                    } else {
                                        assert(old_items[p as int] == old_items[p as int]);
                                    }
                                }
                            }
                        } else if !safe {
                            proof {
                                let pi = pairs@[i as int];
                                lemma_max_whole_nonneg(pairs@, pairs@.len() as int);
                                assert(pi.0 == *key);
                                assert(k < 1);
                                lemma_refuse_at(*heap, *conv, t as int, i as int);
                                assert(whole_key(pairs@[i as int].0) == Some(k));
                                if strict_flat(pairs@) {
                                    assert(pi.0 is Number && pi.0->Number_0.whole->Some_0 >= 1);
                                }
                            }
                            return Err(owned("list index out of bounds"));
                        } else {
                            let ghost old_variants = variants@;
                            if matches!(variant, ConversionVariant::Clean) {
                                variants.push(None);
                            } else {
                                variants.push(Some(ConversionKVP { key: variant, value: ConversionVariant::Clean }));
                            }
                            proof {
                                assert(diag_class(pairs@[i as int].0, len as int) == 1);
                                assert(variants@.subrange(len as int, variants@.len() as int) =~= old_variants.subrange(len as int, old_variants.len() as int).push(
                                    entry_diag(ConversionVariant::Clean, vv, number_key_item(pairs@[i as int].0))));
                                assert forall|q: int|
                                    0 <= q < items@.len() && #[trigger] unclaimed(pairs@, i + 1, q) implies item_view(items@[q])
                                        == ItemView::Value(host_null()) && (safe ==> variants@[q] is None) by {
                                    assert forall|j: int| 0 <= j < i implies #[trigger] whole_key(pairs@[j].0) != Some((q + 1) as i64) by {
                                        assert(whole_key(pairs@[j].0) != Some((q + 1) as i64));
                                    }
                                    assert(unclaimed(pairs@, i as int, q));
                                    assert(variants@[q] == old_variants[q]);
                                }
                            }
                        }
                    },
                    Err(m) => {
                        proof {
                            assert(pairs@[i as int].1 == *value);
                            if !refused_reached(*heap, *conv) {
                                lemma_refuse_at(*heap, *conv, t as int, i as int);
                            }
                        }
                        return Err(m);
                    },
                }
            } else {
                proof {
                    lemma_holes_step(pairs@, i as int, items@, variants@, safe);
                }
            }
        } else {
            proof {
                lemma_holes_step(pairs@, i as int, items@, variants@, safe);
            }
        }
        i = i + 1;
    }
    // Number keys that are not whole: written by number, which the host refuses.
    let mut i: usize = 0;
    while i < pairs.len()
        invariant
            heap.wf(),
            t < heap.tables@.len(),
            n == heap.tables@.len() as int,
            old(conv).visited@[t as int] is None,
            pairs@ == heap.tables@[t as int]@,
            i <= pairs@.len(),
            conv.wf(n),
            step_ok(*old(conv), *conv, n),
            n_free(conv.visited@) < n_free(old(conv).visited@),
            conv.visited@[t as int] == Some(id),
            conv.content_ok(*heap, safe),
            done_step(*old(conv), *conv, *heap, safe),
            new_done_but(*old(conv), *conv, n, t as int),
            !conv.done@.contains(t as int),
            items@.len() == len,
            safe ==> variants@.len() >= len,
            len <= max_whole(pairs@, pairs@.len() as int),
            len_ok ==> len == max_whole(pairs@, pairs@.len() as int),
            !len_ok ==> safe,
            positional_ok(pairs@, pairs@.len() as int, items@, variants@, safe, conv.visited@),
            holes_ok(pairs@, pairs@.len() as int, items@, variants@, safe),
            safe ==> kvs_ok(pairs@, kvs, t as int),
            safe ==> variants@.len() == len + (appended(pairs@, kvs, len as int, 1, pairs@.len() as int) + appended(pairs@, kvs, len as int, 2, i as int)).len()
                && variants@.subrange(len as int, variants@.len() as int) == appended(pairs@, kvs, len as int, 1, pairs@.len() as int)
                + appended(pairs@, kvs, len as int, 2, i as int),
        decreases pairs@.len() - i,
    {
        let (key, value) = &pairs[i];
        if let ScriptValue::Number(num) = key {
            if num.whole.is_none() {
                proof {
                    assert(refs_ok(heap.tables@[t as int]@[i as int].1, n));
                }
                let ghost before = *conv;
                let ghost vs = variants@;
                let converted = convert_value(heap, value, safe, conv);
                proof {
                    lemma_track(*heap, safe, *old(conv), before, *conv, n, t as int, converted is Ok);
                    lemma_step_trans(*old(conv), before, *conv, n);
                    lemma_positional_mono(pairs@, pairs@.len() as int, items@, variants@, safe, before.visited@, conv.visited@);
                }
                if !safe {
                    proof {
                        assert(pairs@[i as int].0 == *key);
                        lemma_refuse_at(*heap, *conv, t as int, i as int);
                    }
                    return Err(owned("list index out of bounds"));
                }
                match converted {
                    Ok((_item, variant)) => {
                        let ghost vv = variant;
                        let ghost kvs0 = kvs;
                        proof {
                            assert(pairs@[i as int].1 == *value && pairs@[i as int].0 == *key);
                            kvs = kvs.update(i as int, (ConversionVariant::Clean, vv));
                            lemma_kvs_step(pairs@, kvs0, i as int, ConversionVariant::Clean, vv, t as int, len as int);
                            assert(diag_class(pairs@[i as int].0, len as int) == 2);
                        }
                        let ghost old_variants = variants@;
                        if matches!(variant, ConversionVariant::Clean) {
                            variants.push(None);
                        } else {
                            variants.push(Some(ConversionKVP { key: variant, value: ConversionVariant::Clean }));
                        }
                        proof {
                            assert(variants@.subrange(len as int, variants@.len() as int) =~= old_variants.subrange(len as int, old_variants.len() as int).push(
                                entry_diag(ConversionVariant::Clean, vv, number_key_item(pairs@[i as int].0))));
                            lemma_positional_push(pairs@, pairs@.len() as int, items@, vs, variants@, safe, conv.visited@);
                            lemma_holes_push(pairs@, pairs@.len() as int, items@, vs, variants@, safe);
                        }
                    },
                    Err(m) => {
                        return Err(m);
                    },
                }
            }
        }
        i = i + 1;
    }
    // Every other key, as an associative write.
    let mut i: usize = 0;
    while i < pairs.len()
        invariant
            heap.wf(),
            t < heap.tables@.len(),
            n == heap.tables@.len() as int,
            old(conv).visited@[t as int] is None,
            pairs@ == heap.tables@[t as int]@,
            i <= pairs@.len(),
            conv.wf(n),
            step_ok(*old(conv), *conv, n),
            n_free(conv.visited@) < n_free(old(conv).visited@),
            conv.visited@[t as int] == Some(id),
            conv.content_ok(*heap, safe),
            done_step(*old(conv), *conv, *heap, safe),
            new_done_but(*old(conv), *conv, n, t as int),
            !conv.done@.contains(t as int),
            items@.len() == len,
            safe ==> variants@.len() >= len,
            len <= max_whole(pairs@, pairs@.len() as int),
            len_ok ==> len == max_whole(pairs@, pairs@.len() as int),
            !len_ok ==> safe,
            positional_ok(pairs@, pairs@.len() as int, items@, variants@, safe, conv.visited@),
            holes_ok(pairs@, pairs@.len() as int, items@, variants@, safe),
            safe ==> kvs_ok(pairs@, kvs, t as int),
            safe ==> variants@.len() == len + (appended(pairs@, kvs, len as int, 1, pairs@.len() as int) + appended(pairs@, kvs, len as int, 2, pairs@.len() as int)
                + appended(pairs@, kvs, len as int, 3, i as int)).len()
                && variants@.subrange(len as int, variants@.len() as int) == appended(pairs@, kvs, len as int, 1, pairs@.len() as int)
                + appended(pairs@, kvs, len as int, 2, pairs@.len() as int) + appended(pairs@, kvs, len as int, 3, i as int),
            assoc_ok(assoc_pairs(pairs@, i as int), assoc@, safe, conv.visited@),
            forall|j: int| 0 <= j < assoc@.len() && #[trigger] error_key(assoc_pairs(pairs@, i as int)[j].0, safe) ==> exists|u: int|
                0 <= u < used@.len() && #[trigger] used@[u]@ == assoc@[j].0->Text_0@,
        decreases pairs@.len() - i,
    {
        let (key, value) = &pairs[i];
        let ghost ap = assoc_pairs(pairs@, i as int);
        if !matches!(key, ScriptValue::Number(_)) {
            proof {
                assert(refs_ok(heap.tables@[t as int]@[i as int].0, n));
                assert(refs_ok(heap.tables@[t as int]@[i as int].1, n));
            }
            let ghost before = *conv;
            let ghost used_before = used;
            let ck = convert_key(heap, key, safe, conv, &mut used);
            let ghost mid = *conv;
            proof {
                lemma_track(*heap, safe, *old(conv), before, *conv, n, t as int, ck is Ok);
                lemma_step_trans(*old(conv), before, *conv, n);
                lemma_positional_mono(pairs@, pairs@.len() as int, items@, variants@, safe, before.visited@, conv.visited@);
                lemma_assoc_mono(ap, assoc@, safe, before.visited@, conv.visited@);
            }
            let (key_item, key_variant) = match ck {
                Ok(p) => p,
                Err(m) => {
                    proof {
                        assert(pairs@[i as int].0 == *key);
                        if !refused_reached(*heap, *conv) {
                            lemma_refuse_at(*heap, *conv, t as int, i as int);
                        }
                    }
                    return Err(m);
                },
            };
            let cv = convert_value(heap, value, safe, conv);
            proof {
                lemma_track(*heap, safe, *old(conv), mid, *conv, n, t as int, cv is Ok);
                lemma_step_trans(*old(conv), mid, *conv, n);
                lemma_positional_mono(pairs@, pairs@.len() as int, items@, variants@, safe, mid.visited@, conv.visited@);
                lemma_assoc_mono(ap, assoc@, safe, mid.visited@, conv.visited@);
                if !(safe && key_variant == ConversionVariant::ConversionError) {
                    lemma_entry_mono(*key, key_item, safe, mid.visited@, conv.visited@);
                }
            }
            let (value_item, value_variant) = match cv {
                Ok(p) => p,
                Err(m) => {
                    proof {
                        assert(pairs@[i as int].1 == *value);
                        if !refused_reached(*heap, *conv) {
                            lemma_refuse_at(*heap, *conv, t as int, i as int);
                        }
                    }
                    return Err(m);
                },
            };
            let key_is_number = match &key_item {
                HostItem::Value(h) => h.tag == ValueTag::Number,
                _ => false,
            };
            let ghost old_assoc = assoc@;
            let ghost pushed = (key_item, value_item);
            proof {
                assert(*key == pairs@[i as int].0 && *value == pairs@[i as int].1);
                assert(entry_ok(pairs@[i as int].1, value_item, safe, conv.visited@));
                assert(assoc_entry_ok(pairs@[i as int], pushed, safe, conv.visited@));
            }
            assoc.push((key_item, value_item));
            proof {
                let ap2 = ap.push(pairs@[i as int]);
                assert(assoc_pairs(pairs@, i + 1) == ap2);
                assert forall|j: int| 0 <= j < assoc@.len() implies #[trigger] assoc_entry_ok(ap2[j], assoc@[j], safe, conv.visited@) by {
                    if j < ap.len() {
                        assert(assoc@[j] == old_assoc[j]);
                        assert(ap2[j] == ap[j]);
                        assert(assoc_entry_ok(ap[j], old_assoc[j], safe, conv.visited@));
                    } else {
                        assert(assoc@[j] == pushed);
                    }
                }
                assert forall|j: int| 0 <= j < assoc@.len() && #[trigger] error_key(ap2[j].0, safe) implies exists|u: int|
                    0 <= u < used@.len() && #[trigger] used@[u]@ == assoc@[j].0->Text_0@ by {
                    if j < ap.len() {
                        assert(ap2[j] == ap[j]);
                        assert(assoc@[j] == old_assoc[j]);
                        let u = choose|u: int| 0 <= u < used_before@.len() && #[trigger] used_before@[u]@ == old_assoc[j].0->Text_0@;
                        assert(used@[u] == used_before@[u]);
                    } else {
                        assert(assoc@[j] == pushed);
                        assert(used@[used@.len() - 1] == key_item->Text_0);
                    }
                }
                assert forall|j1: int, j2: int|
                    0 <= j1 < assoc@.len() && 0 <= j2 < assoc@.len() && j1 != j2 && #[trigger] error_key(ap2[j1].0, safe)
                        && #[trigger] error_key(ap2[j2].0, safe) implies assoc@[j1].0->Text_0@ != assoc@[j2].0->Text_0@ by {
                    if j1 < ap.len() && j2 < ap.len() {
                        assert(ap2[j1] == ap[j1] && ap2[j2] == ap[j2]);
                        assert(assoc@[j1] == old_assoc[j1] && assoc@[j2] == old_assoc[j2]);
                    } else if j1 < ap.len() {
                        assert(ap2[j1] == ap[j1]);
                        assert(assoc@[j1] == old_assoc[j1]);
                        assert(assoc@[j2] == pushed);
                        let u = choose|u: int| 0 <= u < used_before@.len() && #[trigger] used_before@[u]@ == old_assoc[j1].0->Text_0@;
                    } else {
                        assert(ap2[j2] == ap[j2]);
                        assert(assoc@[j2] == old_assoc[j2]);
                        assert(assoc@[j1] == pushed);
                        let u = choose|u: int| 0 <= u < used_before@.len() && #[trigger] used_before@[u]@ == old_assoc[j2].0->Text_0@;
                    }
                }
            }
            let ghost kvs0 = kvs;
            proof {
                if safe {
                    kvs = kvs.update(i as int, (key_variant, value_variant));
                    lemma_kvs_step(pairs@, kvs0, i as int, key_variant, value_variant, t as int, len as int);
                    assert(diag_class(pairs@[i as int].0, len as int) == 3);
                    if !(key is Table) && !error_key(*key, safe) {
                        assert(item_view(key_item) == safe_leaf_spec(*key).0);
                    }
                    assert(key_is_number == number_key_item(pairs@[i as int].0));
                }
            }
            if safe {
                let ghost vs = variants@;
                let clean = matches!(key_variant, ConversionVariant::Clean) && matches!(value_variant, ConversionVariant::Clean);
                if key_is_number {
                    let c = matches!(value_variant, ConversionVariant::Clean);
                    if c {
                        variants.push(None);
                    } else {
                        variants.push(Some(ConversionKVP { key: value_variant, value: ConversionVariant::Clean }));
                    }
                } else if clean {
                    variants.push(None);
                } else {
                    variants.push(Some(ConversionKVP { key: key_variant, value: value_variant }));
                }
                proof {
                    lemma_positional_push(pairs@, pairs@.len() as int, items@, vs, variants@, safe, conv.visited@);
                    lemma_holes_push(pairs@, pairs@.len() as int, items@, vs, variants@, safe);
                    assert(variants@.subrange(len as int, variants@.len() as int) =~= vs.subrange(len as int, vs.len() as int).push(
                        entry_diag(key_variant, value_variant, number_key_item(pairs@[i as int].0))));
                }
            }
        } else {
            proof {
                assert(assoc_pairs(pairs@, i + 1) == ap);
            }
        }
        i = i + 1;
    }
    proof {
        assert(assoc_pairs(pairs@, pairs@.len() as int) == assoc_pairs(heap.tables@[t as int]@, heap.tables@[t as int]@.len() as int));
    }
    let ghost before_set = *conv;
    conv.lists.set(id, HostList { items, assoc });
    let ghost vs_final = variants@;
    let out = ConversionVariant::List(variants);
    proof {
        assert(table_ok(heap.tables@[t as int]@, conv.lists@[id as int], out, safe, conv.visited@));
        if safe {
            assert(vs_final.subrange(len as int, vs_final.len() as int) == tail_diag(heap.tables@[t as int]@, kvs, len as int));
            assert(diag_ok(heap.tables@[t as int]@, vs_final, len as int, t as int));
        }
        assert forall|u: int| #[trigger] before_set.done@.contains(u) implies conv.lists@[before_set.visited@[u]->Some_0 as int]
            == before_set.lists@[before_set.visited@[u]->Some_0 as int] by {
            assert(u != t);
            assert(before_set.visited@[u] != before_set.visited@[t as int]);
        }
        lemma_content_keep(*heap, safe, before_set, *conv);
    }
    conv.done = Ghost(conv.done@.insert(t as int));
    proof {
        assert(list_ok(heap.tables@[t as int]@, conv.lists@[conv.visited@[t as int]->Some_0 as int], safe, conv.visited@));
        assert(conv.content_ok(*heap, safe));
        assert(all_new_done(*old(conv), *conv, n));
    }
    Ok((HostItem::List(id), out))
}

/// The diagnostic of one entry: for a key the host reads as a number, the
/// value's variant in the key field; for any other key, both variants;
/// nothing where everything converted cleanly.
pub open spec fn entry_diag(kv: ConversionVariant, vv: ConversionVariant, numkey: bool) -> Option<ConversionKVP> {
    if numkey {
        if vv == ConversionVariant::Clean {
            None
        } else {
            Some(ConversionKVP { key: vv, value: ConversionVariant::Clean })
        }
    } else if kv == ConversionVariant::Clean && vv == ConversionVariant::Clean {
        None
    } else {
        Some(ConversionKVP { key: kv, value: vv })
    }
}

/// The key is one the host reads as a number.
pub open spec fn number_key_item(k: ScriptValue) -> bool {
    match k {
        ScriptValue::Number(_) => true,
        ScriptValue::Table(_) => false,
        _ => match safe_leaf_spec(k).0 {
            ItemView::Value(h) => h.tag == ValueTag::Number,
            _ => false,
        },
    }
}

/// Which part of the diagnostics a key goes to: a position (0), a whole
/// number off the positions (1), another number (2), anything else (3).
pub open spec fn diag_class(k: ScriptValue, len: int) -> int {
    match k {
        ScriptValue::Number(n) => match n.whole {
            Some(w) => if 1 <= w <= len { 0 } else { 1 },
            None => 2,
        },
        _ => 3,
    }
}

/// The diagnostics appended for the pairs of class `c` among the first `n`.
pub open spec fn appended(
    pairs: Seq<(ScriptValue, ScriptValue)>,
    kvs: Seq<(ConversionVariant, ConversionVariant)>,
    len: int,
    c: int,
    n: int,
) -> Seq<Option<ConversionKVP>>
    decreases n,
{
    if n <= 0 {
        seq![]
    } else if diag_class(pairs[n - 1].0, len) == c {
        appended(pairs, kvs, len, c, n - 1).push(entry_diag(kvs[n - 1].0, kvs[n - 1].1, number_key_item(pairs[n - 1].0)))
    } else {
        appended(pairs, kvs, len, c, n - 1)
    }
}

/// The diagnostics after the positions: off-position whole numbers, other
/// numbers, then every other key, each in the table's order.
pub open spec fn tail_diag(
    pairs: Seq<(ScriptValue, ScriptValue)>,
    kvs: Seq<(ConversionVariant, ConversionVariant)>,
    len: int,
) -> Seq<Option<ConversionKVP>> {
    appended(pairs, kvs, len, 1, pairs.len() as int) + appended(pairs, kvs, len, 2, pairs.len() as int) + appended(
        pairs,
        kvs,
        len,
        3,
        pairs.len() as int,
    )
}

/// A variant a conversion of table `t` reports for one of its keys or
/// values: a leaf's own, and for a table a nested list, or clean where the
/// table was reached before (always for `t` itself).
pub open spec fn variant_ok(v: ScriptValue, cv: ConversionVariant, t: int) -> bool {
    match v {
        ScriptValue::Table(u) => (cv is Clean || cv is List) && (u == t ==> cv == ConversionVariant::Clean),
        _ => cv == safe_leaf_spec(v).1,
    }
}

pub open spec fn kvs_ok(pairs: Seq<(ScriptValue, ScriptValue)>, kvs: Seq<(ConversionVariant, ConversionVariant)>, t: int) -> bool {
    &&& kvs.len() == pairs.len()
    &&& forall|i: int| 0 <= i < pairs.len() ==> {
        &&& variant_ok((#[trigger] pairs[i]).1, kvs[i].1, t)
        &&& pairs[i].0 is Number ==> kvs[i].0 == ConversionVariant::Clean
        &&& !(pairs[i].0 is Number) ==> variant_ok(pairs[i].0, kvs[i].0, t)
    }
}

/// The diagnostic list of table `t`: one entry per position, then one per
/// other pair, as `tail_diag` lays out, for the variants its entries gave.
pub open spec fn diag_ok(pairs: Seq<(ScriptValue, ScriptValue)>, vs: Seq<Option<ConversionKVP>>, len: int, t: int) -> bool {
    exists|kvs: Seq<(ConversionVariant, ConversionVariant)>|
        kvs_ok(pairs, kvs, t) && vs.len() == len + tail_diag(pairs, kvs, len).len() && #[trigger] vs.subrange(len, vs.len() as int)
            == tail_diag(pairs, kvs, len)
}

proof fn lemma_appended_same(
    pairs: Seq<(ScriptValue, ScriptValue)>,
    a: Seq<(ConversionVariant, ConversionVariant)>,
    b: Seq<(ConversionVariant, ConversionVariant)>,
    len: int,
    c: int,
    n: int,
)
    requires
        0 <= n <= pairs.len(),
        n <= a.len(),
        n <= b.len(),
        forall|j: int| 0 <= j < n && diag_class(pairs[j].0, len) == c ==> a[j] == b[j],
    ensures
        appended(pairs, a, len, c, n) == appended(pairs, b, len, c, n),
    decreases n,
{
    if n > 0 {
        lemma_appended_same(pairs, a, b, len, c, n - 1);
    }
}

proof fn lemma_kvs_step(
    pairs: Seq<(ScriptValue, ScriptValue)>,
    kvs: Seq<(ConversionVariant, ConversionVariant)>,
    i: int,
    kv: ConversionVariant,
    vv: ConversionVariant,
    t: int,
    len: int,
)
    requires
        kvs_ok(pairs, kvs, t),
        0 <= i < pairs.len(),
        variant_ok(pairs[i].1, vv, t),
        pairs[i].0 is Number ==> kv == ConversionVariant::Clean,
        !(pairs[i].0 is Number) ==> variant_ok(pairs[i].0, kv, t),
    ensures
        kvs_ok(pairs, kvs.update(i, (kv, vv)), t),
        forall|c: int| #[trigger] appended(pairs, kvs.update(i, (kv, vv)), len, c, i) == appended(pairs, kvs, len, c, i),
        forall|c: int| #[trigger] appended(pairs, kvs.update(i, (kv, vv)), len, c, i + 1) == if diag_class(pairs[i].0, len) == c {
            appended(pairs, kvs, len, c, i).push(entry_diag(kv, vv, number_key_item(pairs[i].0)))
        } else {
            appended(pairs, kvs, len, c, i)
        },
        forall|c: int| c != diag_class(pairs[i].0, len) ==> #[trigger] appended(pairs, kvs.update(i, (kv, vv)), len, c, pairs.len() as int)
            == appended(pairs, kvs, len, c, pairs.len() as int),
{
    let k2 = kvs.update(i, (kv, vv));
    assert forall|j: int| 0 <= j < pairs.len() implies {
        &&& variant_ok((#[trigger] pairs[j]).1, k2[j].1, t)
        &&& pairs[j].0 is Number ==> k2[j].0 == ConversionVariant::Clean
        &&& !(pairs[j].0 is Number) ==> variant_ok(pairs[j].0, k2[j].0, t)
    } by {
        if j != i {
            assert(k2[j] == kvs[j]);
        }
    }
    assert forall|c: int| #[trigger] appended(pairs, k2, len, c, i) == appended(pairs, kvs, len, c, i) by {
        lemma_appended_same(pairs, k2, kvs, len, c, i);
    }
    assert forall|c: int| #[trigger] appended(pairs, k2, len, c, i + 1) == if diag_class(pairs[i].0, len) == c {
        appended(pairs, kvs, len, c, i).push(entry_diag(kv, vv, number_key_item(pairs[i].0)))
    } else {
        appended(pairs, kvs, len, c, i)
    } by {
        lemma_appended_same(pairs, k2, kvs, len, c, i);
    }
    assert forall|c: int| c != diag_class(pairs[i].0, len) implies #[trigger] appended(pairs, k2, len, c, pairs.len() as int)
        == appended(pairs, kvs, len, c, pairs.len() as int) by {
        lemma_appended_same(pairs, k2, kvs, len, c, pairs.len() as int);
    }
}

/// The variants known before any entry is converted: a leaf's own, clean
/// for tables and number keys.
pub open spec fn initial_kvs(pairs: Seq<(ScriptValue, ScriptValue)>) -> Seq<(ConversionVariant, ConversionVariant)> {
    Seq::new(
        pairs.len(),
        |i: int| (
            match pairs[i].0 {
                ScriptValue::Number(_) => ConversionVariant::Clean,
                ScriptValue::Table(_) => ConversionVariant::Clean,
                k => safe_leaf_spec(k).1,
            },
            match pairs[i].1 {
                ScriptValue::Table(_) => ConversionVariant::Clean,
                v => safe_leaf_spec(v).1,
            },
        ),
    )
}

/// An associative write holds the conversions of its pair: the value's, and
/// the key's unless in safe mode the key's conversion failed.
pub open spec fn assoc_entry_ok(p: (ScriptValue, ScriptValue), e: (HostItem, HostItem), safe: bool, visited: Seq<Option<usize>>) -> bool {
    &&& entry_ok(p.1, e.1, safe, visited)
    &&& if error_key(p.0, safe) {
        e.0 is Text && padded(e.0->Text_0@, key_message(p.0))
    } else {
        entry_ok(p.0, e.0, safe, visited)
    }
}

/// The associative writes are the pairs with keys other than numbers, in order.
pub open spec fn assoc_ok(ap: Seq<(ScriptValue, ScriptValue)>, assoc: Seq<(HostItem, HostItem)>, safe: bool, visited: Seq<Option<usize>>) -> bool {
    &&& assoc.len() == ap.len()
    &&& forall|j: int| 0 <= j < assoc.len() ==> #[trigger] assoc_entry_ok(ap[j], assoc[j], safe, visited)
    &&& forall|j1: int, j2: int|
        0 <= j1 < assoc.len() && 0 <= j2 < assoc.len() && j1 != j2 && #[trigger] error_key(ap[j1].0, safe)
            && #[trigger] error_key(ap[j2].0, safe) ==> assoc[j1].0->Text_0@ != assoc[j2].0->Text_0@
}

proof fn lemma_assoc_mono(ap: Seq<(ScriptValue, ScriptValue)>, assoc: Seq<(HostItem, HostItem)>, safe: bool, a: Seq<Option<usize>>, b: Seq<Option<usize>>)
    requires
        assoc_ok(ap, assoc, safe, a),
        keeps_visits(a, b),
    ensures
        assoc_ok(ap, assoc, safe, b),
{
    assert forall|j: int| 0 <= j < assoc.len() implies #[trigger] assoc_entry_ok(ap[j], assoc[j], safe, b) by {
        assert(assoc_entry_ok(ap[j], assoc[j], safe, a));
        lemma_entry_mono(ap[j].1, assoc[j].1, safe, a, b);
        if !error_key(ap[j].0, safe) {
            lemma_entry_mono(ap[j].0, assoc[j].0, safe, a, b);
        }
    }
}

proof fn lemma_holes_step(
    pairs: Seq<(ScriptValue, ScriptValue)>,
    n: int,
    items: Seq<HostItem>,
    variants: Seq<Option<ConversionKVP>>,
    safe: bool,
)
    requires
        0 <= n < pairs.len(),
        holes_ok(pairs, n, items, variants, safe),
        whole_key(pairs[n].0) is None,
    ensures
        holes_ok(pairs, n + 1, items, variants, safe),
{
    assert forall|q: int| 0 <= q < items.len() && #[trigger] unclaimed(pairs, n + 1, q) implies item_view(items[q])
        == ItemView::Value(host_null()) && (safe ==> variants[q] is None) by {
        assert forall|j: int| 0 <= j < n implies #[trigger] whole_key(pairs[j].0) != Some((q + 1) as i64) by {
            assert(whole_key(pairs[j].0) != Some((q + 1) as i64));
        }
        assert(unclaimed(pairs, n, q));
    }
}

proof fn lemma_holes_push(
    pairs: Seq<(ScriptValue, ScriptValue)>,
    n: int,
    items: Seq<HostItem>,
    vs: Seq<Option<ConversionKVP>>,
    ws: Seq<Option<ConversionKVP>>,
    safe: bool,
)
    requires
        holes_ok(pairs, n, items, vs, safe),
        safe ==> vs.len() >= items.len(),
        forall|p: int| 0 <= p < vs.len() ==> ws[p] == vs[p],
    ensures
        holes_ok(pairs, n, items, ws, safe),
{
}

proof fn lemma_positional_push(
    pairs: Seq<(ScriptValue, ScriptValue)>,
    n: int,
    items: Seq<HostItem>,
    vs: Seq<Option<ConversionKVP>>,
    ws: Seq<Option<ConversionKVP>>,
    safe: bool,
    visited: Seq<Option<usize>>,
)
    requires
        positional_ok(pairs, n, items, vs, safe, visited),
        safe ==> vs.len() >= items.len(),
        ws.len() == vs.len() + 1,
        forall|p: int| 0 <= p < vs.len() ==> ws[p] == vs[p],
    ensures
        positional_ok(pairs, n, items, ws, safe, visited),
{
    assert forall|i: int|
        0 <= i < n && #[trigger] whole_key(pairs[i].0) is Some && 1 <= whole_key(pairs[i].0)->Some_0
            <= items.len() && safe && !(pairs[i].1 is Table) implies ws[whole_key(pairs[i].0)->Some_0 - 1] == vs[whole_key(pairs[i].0)->Some_0 - 1] by {
    }
}

/// The largest whole-number key of a table's pairs, and at least 0.
fn max_whole_key(pairs: &Vec<(ScriptValue, ScriptValue)>) -> (r: i64)
    ensures
        r == max_whole(pairs@, pairs@.len() as int),
{
    let mut m: i64 = 0;
    let mut i: usize = 0;
    while i < pairs.len()
        invariant
            i <= pairs@.len(),
            m == max_whole(pairs@, i as int),
        decreases pairs@.len() - i,
    {
        if let ScriptValue::Number(n) = &pairs[i].0 {
            if let Some(k) = n.whole {
                if k > m {
                    m = k;
                }
            }
        }
        i = i + 1;
    }
    m
}

/// No pair among the first `n` has the whole-number key `p + 1`.
pub open spec fn unclaimed(pairs: Seq<(ScriptValue, ScriptValue)>, n: int, p: int) -> bool {
    forall|j: int| 0 <= j < n ==> #[trigger] whole_key(pairs[j].0) != Some((p + 1) as i64)
}

/// The positions that no pair claims hold null, with no diagnostic.
pub open spec fn holes_ok(
    pairs: Seq<(ScriptValue, ScriptValue)>,
    n: int,
    items: Seq<HostItem>,
    variants: Seq<Option<ConversionKVP>>,
    safe: bool,
) -> bool {
    forall|p: int|
        0 <= p < items.len() && #[trigger] unclaimed(pairs, n, p) ==> item_view(items[p])
            == ItemView::Value(host_null()) && (safe ==> variants[p] is None)
}

/// The positional entries for the whole-number keys among the first `n`
/// pairs hold what their values convert to, and in safe mode the
/// diagnostic at that position records the value's variant unless clean.
pub open spec fn positional_ok(
    pairs: Seq<(ScriptValue, ScriptValue)>,
    n: int,
    items: Seq<HostItem>,
    variants: Seq<Option<ConversionKVP>>,
    safe: bool,
    visited: Seq<Option<usize>>,
) -> bool {
    forall|i: int|
        0 <= i < n && #[trigger] whole_key(pairs[i].0) is Some && 1 <= whole_key(pairs[i].0)->Some_0
            <= items.len() ==> {
            let k = whole_key(pairs[i].0)->Some_0 as int;
            &&& entry_ok(pairs[i].1, items[k - 1], safe, visited)
            &&& safe && !(pairs[i].1 is Table) ==> variants[k - 1] == if safe_leaf_spec(
                pairs[i].1,
            ).1 == ConversionVariant::Clean {
                None::<ConversionKVP>
            } else {
                Some(ConversionKVP { key: safe_leaf_spec(pairs[i].1).1, value: ConversionVariant::Clean })
            }
        }
}

/// What the list made for a table holds.
pub open spec fn table_ok(
    pairs: Seq<(ScriptValue, ScriptValue)>,
    list: HostList,
    variant: ConversionVariant,
    safe: bool,
    visited: Seq<Option<usize>>,
) -> bool {
    &&& list.items@.len() <= max_whole(pairs, pairs.len() as int)
    &&& list.items@.len() <= MAX_LIST_LEN
    &&& max_whole(pairs, pairs.len() as int) <= MAX_LIST_LEN ==> list.items@.len() == max_whole(pairs, pairs.len() as int)
    &&& !safe ==> list.items@.len() == max_whole(pairs, pairs.len() as int)
    &&& safe ==> variant is List
    &&& assoc_ok(assoc_pairs(pairs, pairs.len() as int), list.assoc@, safe, visited)
    &&& holes_ok(
        pairs,
        pairs.len() as int,
        list.items@,
        match variant {
            ConversionVariant::List(v) => v@,
            _ => Seq::empty(),
        },
        safe,
    )
    &&& positional_ok(
        pairs,
        pairs.len() as int,
        list.items@,
        match variant {
            ConversionVariant::List(v) => v@,
            _ => Seq::empty(),
        },
        safe,
        visited,
    )
}

/// A converted value and the host lists made for it: `visited` gives the list
/// made for each table of the heap that the conversion reached.
pub struct Converted {
    pub item: HostItem,
    pub lists: Vec<HostList>,
    pub visited: Vec<Option<usize>>,
}

/// What a finished conversion of table `t` holds: one list per table reached,
/// the item naming the list of `t`, and that list holding `t`'s pairs.
pub open spec fn converted_ok(heap: ScriptHeap, t: int, c: Converted, variant: ConversionVariant, safe: bool) -> bool {
    let conv = Conversion { visited: c.visited, lists: c.lists, done: Ghost(Set::empty()) };
    &&& conv.wf(heap.tables@.len() as int)
    &&& c.visited@[t] is Some
    &&& item_view(c.item) == ItemView::List(c.visited@[t]->Some_0 as int)
    &&& table_ok(heap.tables@[t]@, c.lists@[c.visited@[t]->Some_0 as int], variant, safe, c.visited@)
    &&& safe ==> variant is List && diag_ok(heap.tables@[t]@, variant->List_0@, c.lists@[c.visited@[t]->Some_0 as int].items@.len() as int, t)
    &&& forall|u: int| 0 <= u < heap.tables@.len() && #[trigger] c.visited@[u] is Some ==> list_ok(
        heap.tables@[u]@,
        c.lists@[c.visited@[u]->Some_0 as int],
        safe,
        c.visited@,
    )
}

/// Converts table `t` to a host list, failing on the first value the host
/// cannot hold.
pub fn convert_from_table(heap: &ScriptHeap, t: usize) -> (r: Result<Converted, String>)
    requires
        heap.wf(),
        t < heap.tables@.len(),
    ensures
        r is Ok ==> converted_ok(*heap, t as int, r->Ok_0, ConversionVariant::Clean, false),
        (forall|u: int| 0 <= u < heap.tables@.len() ==> #[trigger] host_holds(heap.tables@[u]@)) ==> r is Ok,
        strict_flat(heap.tables@[t as int]@) && max_whole(heap.tables@[t as int]@, heap.tables@[t as int]@.len() as int)
            <= MAX_LIST_LEN ==> r is Ok,
{
    let mut conv = Conversion::new(heap.tables.len());
    let ghost start = conv;
    match convert_from_table_impl(heap, t, false, &mut conv) {
        Ok((item, variant)) => {
            proof {
                assert forall|u: int| 0 <= u < heap.tables@.len() && #[trigger] conv.visited@[u] is Some implies list_ok(
                    heap.tables@[u]@, conv.lists@[conv.visited@[u]->Some_0 as int], false, conv.visited@) by {
                    assert(start.visited@[u] is None);
                    assert(conv.done@.contains(u));
                }
            }
            let c = Converted { item, lists: conv.lists, visited: conv.visited };
            assert(converted_ok(*heap, t as int, c, variant, false));
            assert(converted_ok(*heap, t as int, c, ConversionVariant::Clean, false));
            Ok(c)
        },
        Err(m) => {
            proof {
                let u = choose|u: int| 0 <= u < heap.tables@.len() && conv.visited@[u] is Some && !#[trigger] host_holds(heap.tables@[u]@);
            }
            Err(m)
        },
    }
}

/// Converts table `t` to a host list without ever failing: what the host
/// cannot hold becomes placeholder text, and the diagnostic list records
/// how each entry was obtained.
pub fn safe_convert_from_table(heap: &ScriptHeap, t: usize) -> (r: (Converted, ConversionVariant))
    requires
        heap.wf(),
        t < heap.tables@.len(),
    ensures
        converted_ok(*heap, t as int, r.0, r.1, true),
        r.1 is List,
{
    let mut conv = Conversion::new(heap.tables.len());
    let ghost start = conv;
    match convert_from_table_impl(heap, t, true, &mut conv) {
        Ok((item, variant)) => {
            proof {
                assert forall|u: int| 0 <= u < heap.tables@.len() && #[trigger] conv.visited@[u] is Some implies list_ok(
                    heap.tables@[u]@, conv.lists@[conv.visited@[u]->Some_0 as int], true, conv.visited@) by {
                    assert(start.visited@[u] is None);
                    assert(conv.done@.contains(u));
                }
            }
            (Converted { item, lists: conv.lists, visited: conv.visited }, variant)
        },
        Err(m) => (Converted { item: HostItem::Text(m), lists: Vec::new(), visited: Vec::new() }, ConversionVariant::ConversionError),
    }
}

/// Converts one value in safe mode: a table to its list, anything else as a
/// safe leaf.
pub fn safe_convert_value(heap: &ScriptHeap, v: &ScriptValue) -> (r: (Converted, ConversionVariant))
    requires
        heap.wf(),
        refs_ok(*v, heap.tables@.len() as int),
    ensures
        match *v {
            ScriptValue::Table(t) => converted_ok(*heap, t as int, r.0, r.1, true),
            _ => (item_view(r.0.item), r.1) == safe_leaf_spec(*v) && r.0.lists@.len() == 0,
        },
{
    match v {
        ScriptValue::Table(t) => safe_convert_from_table(heap, *t),
        _ => {
            let (item, variant) = safe_from_script_leaf(v);
            (Converted { item, lists: Vec::new(), visited: Vec::new() }, variant)
        },
    }
}

/// Converts the values a script run returned, in safe mode, each on its own.
pub fn process_return_values(heap: &ScriptHeap, values: &Vec<ScriptValue>) -> (r: Vec<(Converted, ConversionVariant)>)
    requires
        heap.wf(),
        forall|i: int| 0 <= i < values@.len() ==> refs_ok(#[trigger] values@[i], heap.tables@.len() as int),
    ensures
        r@.len() == values@.len(),
        forall|i: int| 0 <= i < values@.len() ==> match #[trigger] values@[i] {
            ScriptValue::Table(t) => converted_ok(*heap, t as int, r@[i].0, r@[i].1, true),
            _ => (item_view(r@[i].0.item), r@[i].1) == safe_leaf_spec(values@[i]),
        },
{
    let mut out: Vec<(Converted, ConversionVariant)> = Vec::new();
    let mut i: usize = 0;
    while i < values.len()
        invariant
            heap.wf(),
            forall|i: int| 0 <= i < values@.len() ==> refs_ok(#[trigger] values@[i], heap.tables@.len() as int),
            i <= values@.len(),
            out@.len() == i,
            forall|j: int| 0 <= j < i ==> match #[trigger] values@[j] {
                ScriptValue::Table(t) => converted_ok(*heap, t as int, out@[j].0, out@[j].1, true),
                _ => (item_view(out@[j].0.item), out@[j].1) == safe_leaf_spec(values@[j]),
            },
        decreases values@.len() - i,
    {
        let c = safe_convert_value(heap, &values[i]);
        out.push(c);
        i = i + 1;
    }
    out
}

/// A table that holds itself converts to one list whose entry points back
/// at that same list: the cycle is cut, not copied, and no more lists are
/// made than there are tables.
pub proof fn lemma_cycle_not_duplicated(heap: ScriptHeap, t: usize, c: Converted, v: ConversionVariant, safe: bool, i: int)
    requires
        0 <= t < heap.tables@.len(),
        converted_ok(heap, t as int, c, v, safe),
        0 <= i < heap.tables@[t as int]@.len(),
        heap.tables@[t as int]@[i].1 == ScriptValue::Table(t),
        whole_key(heap.tables@[t as int]@[i].0) is Some,
        1 <= whole_key(heap.tables@[t as int]@[i].0)->Some_0 <= c.lists@[c.visited@[t as int]->Some_0 as int].items@.len(),
    ensures
        item_view(c.lists@[c.visited@[t as int]->Some_0 as int].items@[whole_key(heap.tables@[t as int]@[i].0)->Some_0 - 1])
            == item_view(c.item),
        c.lists@.len() <= heap.tables@.len(),
{
    let pairs = heap.tables@[t as int]@;
    assert(whole_key(pairs[i].0) is Some);
    assert(entry_ok(pairs[i].1, c.lists@[c.visited@[t as int]->Some_0 as int].items@[whole_key(pairs[i].0)->Some_0 - 1], safe, c.visited@));
}

/// Positions are filled by key alone, whatever order the pairs come in: in
/// strict mode the list is as long as the largest whole-number key, each
/// position holds what the value under that key converts to, and a position
/// that no key names holds null. Every other pair becomes an associative
/// write, kept apart from and written after the positions.
pub proof fn lemma_positions_by_key(heap: ScriptHeap, t: int, c: Converted, v: ConversionVariant, safe: bool, p: int)
    requires
        0 <= t < heap.tables@.len(),
        converted_ok(heap, t, c, v, safe),
        0 <= p < c.lists@[c.visited@[t]->Some_0 as int].items@.len(),
    ensures
        ({
            let pairs = heap.tables@[t]@;
            let list = c.lists@[c.visited@[t]->Some_0 as int];
            &&& !safe ==> list.items@.len() == max_whole(pairs, pairs.len() as int)
            &&& unclaimed(pairs, pairs.len() as int, p) ==> item_view(list.items@[p]) == ItemView::Value(host_null())
            &&& forall|i: int| 0 <= i < pairs.len() && #[trigger] whole_key(pairs[i].0) == Some((p + 1) as i64)
                ==> entry_ok(pairs[i].1, list.items@[p], safe, c.visited@)
            &&& list.assoc@.len() == assoc_pairs(pairs, pairs.len() as int).len()
        }),
{
    let pairs = heap.tables@[t]@;
    let list = c.lists@[c.visited@[t]->Some_0 as int];
    lemma_max_whole_nonneg(pairs, pairs.len() as int);
    assert forall|i: int| 0 <= i < pairs.len() && #[trigger] whole_key(pairs[i].0) == Some((p + 1) as i64)
        implies entry_ok(pairs[i].1, list.items@[p], safe, c.visited@) by {
        assert(whole_key(pairs[i].0) is Some);
        assert(whole_key(pairs[i].0)->Some_0 as int == p + 1);
    }
    if unclaimed(pairs, pairs.len() as int, p) {
        assert(item_view(list.items@[p]) == ItemView::Value(host_null()));
    }
}

/// In a table's diagnostics, a pair whose value is the table itself reports
/// the variant clean, so under a key that converted cleanly it leaves no
/// entry: the cycle is cut without a diagnostic.
pub proof fn lemma_self_entry_elided(
    pairs: Seq<(ScriptValue, ScriptValue)>,
    kvs: Seq<(ConversionVariant, ConversionVariant)>,
    t: int,
    i: int,
)
    requires
        kvs_ok(pairs, kvs, t),
        0 <= i < pairs.len(),
        pairs[i].1 == ScriptValue::Table(t as usize),
        0 <= t <= usize::MAX,
        pairs[i].0 is Number || safe_leaf_spec(pairs[i].0).1 == ConversionVariant::Clean,
        !(pairs[i].0 is Table),
    ensures
        entry_diag(kvs[i].0, kvs[i].1, number_key_item(pairs[i].0)) is None,
{
    assert(variant_ok(pairs[i].1, kvs[i].1, t));
}

/// In a table's diagnostics, a function stored under a key that converted
/// cleanly and is not a number reports the function with a clean key.
pub proof fn lemma_function_entry(
    pairs: Seq<(ScriptValue, ScriptValue)>,
    kvs: Seq<(ConversionVariant, ConversionVariant)>,
    t: int,
    i: int,
)
    requires
        kvs_ok(pairs, kvs, t),
        0 <= i < pairs.len(),
        pairs[i].1 is Function,
        !(pairs[i].0 is Number) && !(pairs[i].0 is Table),
        safe_leaf_spec(pairs[i].0).1 == ConversionVariant::Clean,
        !number_key_item(pairs[i].0),
    ensures
        entry_diag(kvs[i].0, kvs[i].1, number_key_item(pairs[i].0)) == Some(
            ConversionKVP { key: ConversionVariant::Clean, value: ConversionVariant::Function },
        ),
{
    assert(variant_ok(pairs[i].1, kvs[i].1, t));
    assert(variant_ok(pairs[i].0, kvs[i].0, t));
}

/// In safe mode a function stored under a whole-number key becomes its
/// placeholder text at that position, and the diagnostic at that position
/// marks it as a function.
pub proof fn lemma_function_placeholder(heap: ScriptHeap, t: int, c: Converted, v: ConversionVariant, i: int)
    requires
        0 <= t < heap.tables@.len(),
        converted_ok(heap, t, c, v, true),
        0 <= i < heap.tables@[t]@.len(),
        heap.tables@[t]@[i].1 is Function,
        whole_key(heap.tables@[t]@[i].0) is Some,
        1 <= whole_key(heap.tables@[t]@[i].0)->Some_0 <= c.lists@[c.visited@[t]->Some_0 as int].items@.len(),
    ensures
        ({
            let k = whole_key(heap.tables@[t]@[i].0)->Some_0 as int;
            let f = heap.tables@[t]@[i].1;
            &&& item_view(c.lists@[c.visited@[t]->Some_0 as int].items@[k - 1]) == ItemView::Text(
                function_text(f->Function_name, f->Function_address),
            )
            &&& v is List
            &&& v->List_0@[k - 1] == Some(ConversionKVP { key: ConversionVariant::Function, value: ConversionVariant::Clean })
        }),
{
    let pairs = heap.tables@[t]@;
    assert(whole_key(pairs[i].0) is Some);
}

/// A function stored under a key that is not a number becomes an
/// associative write whose value is its placeholder text.
pub proof fn lemma_function_placeholder_assoc(heap: ScriptHeap, t: int, c: Converted, v: ConversionVariant, j: int)
    requires
        0 <= t < heap.tables@.len(),
        converted_ok(heap, t, c, v, true),
        0 <= j < assoc_pairs(heap.tables@[t]@, heap.tables@[t]@.len() as int).len(),
        assoc_pairs(heap.tables@[t]@, heap.tables@[t]@.len() as int)[j].1 is Function,
    ensures
        ({
            let f = assoc_pairs(heap.tables@[t]@, heap.tables@[t]@.len() as int)[j].1;
            item_view(c.lists@[c.visited@[t]->Some_0 as int].assoc@[j].1) == ItemView::Text(
                function_text(f->Function_name, f->Function_address),
            )
        }),
{
    let list = c.lists@[c.visited@[t]->Some_0 as int];
    assert(assoc_entry_ok(assoc_pairs(heap.tables@[t]@, heap.tables@[t]@.len() as int)[j], list.assoc@[j], true, c.visited@));
}

impl ScriptHeap {
    /// Checks the heap's well-formedness, so that a caller can test it
    /// before converting.
    pub fn check(&self) -> (r: bool)
        ensures
            r == self.wf(),
    {
        let n = self.tables.len();
        let mut t: usize = 0;
        while t < n
            invariant
                n == self.tables@.len(),
                t <= n,
                forall|u: int, i: int|
                    0 <= u < t && 0 <= i < self.tables@[u]@.len() ==> refs_ok(
                        (#[trigger] self.tables@[u]@[i]).0,
                        n as int,
                    ) && refs_ok(self.tables@[u]@[i].1, n as int),
                forall|u: int, i: int, j: int|
                    0 <= u < t && 0 <= i < self.tables@[u]@.len() && 0 <= j < self.tables@[u]@.len()
                        && i != j && whole_key(#[trigger] self.tables@[u]@[i].0) is Some ==> whole_key(
                        self.tables@[u]@[i].0,
                    ) != whole_key(#[trigger] self.tables@[u]@[j].0),
            decreases n - t,
        {
            let pairs = &self.tables[t];
            let m = pairs.len();
            let mut i: usize = 0;
            while i < m
                invariant
                    n == self.tables@.len(),
                    t < n,
                    pairs@ == self.tables@[t as int]@,
                    m == pairs@.len(),
                    i <= m,
                    forall|k: int|
                        0 <= k < i ==> refs_ok((#[trigger] pairs@[k]).0, n as int) && refs_ok(
                            pairs@[k].1,
                            n as int,
                        ),
                    forall|k: int, j: int|
                        0 <= k < i && 0 <= j < m && k != j && whole_key(#[trigger] pairs@[k].0)
                            is Some ==> whole_key(pairs@[k].0) != whole_key(#[trigger] pairs@[j].0),
                decreases m - i,
            {
                let (key, value) = &pairs[i];
                if let ScriptValue::Table(x) = key {
                    if *x >= n {
                        assert(!refs_ok(self.tables@[t as int]@[i as int].0, n as int));
                        return false;
                    }
                }
                if let ScriptValue::Table(x) = value {
                    if *x >= n {
                        assert(!refs_ok(self.tables@[t as int]@[i as int].1, n as int));
                        return false;
                    }
                }
                if let ScriptValue::Number(a) = key {
                    if let Some(ka) = a.whole {
                        let mut j: usize = 0;
                        while j < m
                            invariant
                                t < self.tables@.len(),
                                pairs@ == self.tables@[t as int]@,
                                m == pairs@.len(),
                                i < m,
                                j <= m,
                                whole_key(pairs@[i as int].0) == Some(ka),
                                forall|l: int|
                                    0 <= l < j && l != i ==> whole_key(pairs@[i as int].0) != whole_key(
                                        #[trigger] pairs@[l].0,
                                    ),
                            decreases m - j,
                        {
                            if j != i {
                                if let ScriptValue::Number(b) = &pairs[j].0 {
                                    if b.whole == Some(ka) {
                                        assert(whole_key(self.tables@[t as int]@[j as int].0) == Some(ka));
                                        assert(whole_key(self.tables@[t as int]@[i as int].0) == Some(ka));
                                        assert(i != j);
                                        return false;
                                    }
                                }
                            }
                            j = j + 1;
                        }
                    }
                }
                i = i + 1;
            }
            t = t + 1;
        }
        true
    }
}

} // verus!
