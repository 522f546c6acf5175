use vstd::prelude::*;

use crate::conversion::{ScriptHeap, ScriptNumber, ScriptValue, MAX_LIST_LEN};
use crate::value::HostValue;

verus! {

/// A host value as read out of a host list: null, a number (with its script
/// reading), a string's bytes, another host object, or a list, named by its
/// index in a [`HostHeap`] together with its own host value.
pub enum HostEntry {
    Null,
    Number(ScriptNumber),
    Text(Vec<u8>),
    Object(HostValue),
    List { id: usize, value: HostValue },
}

/// The entries of host lists as iteration reads them: each element with its
/// associated value (null where it has none).
pub struct HostHeap {
    pub lists: Vec<Vec<(HostEntry, HostEntry)>>,
}

impl HostHeap {
    pub open spec fn wf(&self) -> bool {
        &&& forall|l: int, i: int|
            0 <= l < self.lists@.len() && 0 <= i < self.lists@[l]@.len() ==> entry_refs_ok(
                (#[trigger] self.lists@[l]@[i]).0,
                self.lists@.len() as int,
            ) && entry_refs_ok(self.lists@[l]@[i].1, self.lists@.len() as int)
        &&& forall|l: int| 0 <= l < self.lists@.len() ==> #[trigger] self.lists@[l]@.len() <= MAX_LIST_LEN
    }
}

impl HostHeap {
    /// Checks the heap's well-formedness, so that a caller can test it
    /// before reading lists.
    pub fn check(&self) -> (r: bool)
        ensures
            r == self.wf(),
    {
        let n = self.lists.len();
        let mut l: usize = 0;
        while l < n
            invariant
                n == self.lists@.len(),
                l <= n,
                forall|a: int, i: int|
                    0 <= a < l && 0 <= i < self.lists@[a]@.len() ==> entry_refs_ok(
                        (#[trigger] self.lists@[a]@[i]).0,
                        n as int,
                    ) && entry_refs_ok(self.lists@[a]@[i].1, n as int),
                forall|a: int| 0 <= a < l ==> #[trigger] self.lists@[a]@.len() <= MAX_LIST_LEN,
            decreases n - l,
        {
            let entries = &self.lists[l];
            if entries.len() as u64 > MAX_LIST_LEN {
                return false;
            }
            let mut i: usize = 0;
            while i < entries.len()
                invariant
                    n == self.lists@.len(),
                    l < n,
                    entries@ == self.lists@[l as int]@,
                    i <= entries@.len(),
                    forall|k: int| 0 <= k < i ==> entry_refs_ok((#[trigger] entries@[k]).0, n as int) && entry_refs_ok(
                        entries@[k].1,
                        n as int,
                    ),
                decreases entries@.len() - i,
            {
                if let HostEntry::List { id, .. } = &entries[i].0 {
                    if *id >= n {
                        assert(!entry_refs_ok(self.lists@[l as int]@[i as int].0, n as int));
                        return false;
                    }
                }
                if let HostEntry::List { id, .. } = &entries[i].1 {
                    if *id >= n {
                        assert(!entry_refs_ok(self.lists@[l as int]@[i as int].1, n as int));
                        return false;
                    }
                }
                i = i + 1;
            }
            l = l + 1;
        }
        true
    }
}

pub open spec fn entry_refs_ok(e: HostEntry, n: int) -> bool {
    match e {
        HostEntry::List { id, .. } => id < n,
        _ => true,
    }
}

pub open spec fn log2(k: nat) -> nat
    decreases k,
{
    if k <= 1 { 0 } else { 1 + log2(k / 2) }
}

pub open spec fn pow2(e: nat) -> nat
    decreases e,
{
    if e == 0 { 1 } else { 2 * pow2((e - 1) as nat) }
}

/// The bits of the 32-bit float equal to a positive integer below 2^24.
pub open spec fn f32_bits_of(k: nat) -> int {
    (127 + log2(k)) * pow2(23) + k * pow2((23 - log2(k)) as nat) - pow2(23)
}

proof fn lemma_log2_bounds(k: nat)
    requires
        k >= 1,
    ensures
        pow2(log2(k)) <= k < 2 * pow2(log2(k)),
    decreases k,
{
    if k > 1 {
        lemma_log2_bounds(k / 2);
    }
}

proof fn lemma_pow2_mono(a: nat, b: nat)
    requires
        a <= b,
    ensures
        pow2(a) <= pow2(b),
    decreases b,
{
    if a < b {
        lemma_pow2_mono(a, (b - 1) as nat);
    }
}

proof fn lemma_pow2_add(a: nat, b: nat)
    ensures
        pow2(a + b) == pow2(a) * pow2(b),
    decreases a,
{
    if a > 0 {
        lemma_pow2_add((a - 1) as nat, b);
        assert(pow2(a) == 2 * pow2((a - 1) as nat));
        assert(((a + b) - 1) as nat == ((a - 1) as nat + b) as nat);
        assert(pow2(a + b) == 2 * pow2((a - 1 + b) as nat));
        let x = pow2((a - 1) as nat);
        let y = pow2(b);
        assert(2 * (x * y) == (2 * x) * y) by (nonlinear_arith);
        assert(pow2(a + b) == pow2(a) * y);
    } else {
        assert(pow2(0) == 1);
        assert(a + b == b);
        assert(pow2(a) * pow2(b) == pow2(b));
    }
}

/// The script number of a list position.
pub fn index_number(k: u64) -> (r: ScriptNumber)
    requires
        1 <= k < 0x100_0000,
    ensures
        r.whole == Some(k as i64),
        r.bits as int == f32_bits_of(k as nat),
{
    let mut m: u64 = k;
    let mut e: u64 = 0;
    assert(pow2(0) == 1);
    while m >= 2
        invariant
            1 <= m <= k,
            e <= 24,
            log2(k as nat) == e + log2(m as nat),
            m * pow2(e as nat) <= k,
            k < 0x100_0000,
        decreases m,
    {
        proof {
            lemma_log2_bounds(m as nat);
            lemma_log2_bounds(k as nat);
            assert(pow2((e + 1) as nat) == 2 * pow2(e as nat));
            assert((m / 2) * pow2((e + 1) as nat) <= m * pow2(e as nat)) by (nonlinear_arith)
                requires pow2((e + 1) as nat) == 2 * pow2(e as nat);
            lemma_pow2_mono(e as nat, log2(k as nat));
            lemma_pow2_24();
            if log2(k as nat) >= 24 {
                lemma_pow2_mono(24, log2(k as nat));
            }
        }
        m = m / 2;
        e = e + 1;
    }
    proof {
        lemma_log2_bounds(k as nat);
        assert(log2(k as nat) == e);
        lemma_pow2_24();
        lemma_pow2_24();
        if e > 23 {
            lemma_pow2_mono(24, e as nat);
        }
        lemma_pow2_add((23 - e) as nat, e as nat);
        lemma_pow2_bounded((23 - e) as nat);
        let p = pow2((23 - e) as nat);
        let q = pow2(e as nat);
        assert(((23 - e) as nat + e as nat) as nat == 23);
        assert(p * q == 0x80_0000);
        assert(k * p < 0x100_0000) by (nonlinear_arith)
            requires k < 2 * q, p >= 1, p * q == 0x80_0000;
        assert(k * p >= 0x80_0000) by (nonlinear_arith)
            requires k >= q, p >= 1, p * q == 0x80_0000;
    }
    let mant: u64 = k * pow2_exec(23 - e);
    let bits: u64 = (127 + e) * 0x80_0000 + mant - 0x80_0000;
    ScriptNumber { whole: Some(k as i64), bits: bits as u32 }
}

proof fn lemma_pow2_24()
    ensures
        pow2(23) == 0x80_0000,
        pow2(24) == 0x100_0000,
{
    reveal_with_fuel(pow2, 25);
}

proof fn lemma_pow2_bounded(e: nat)
    requires
        e <= 23,
    ensures
        1 <= pow2(e) <= 0x80_0000,
{
    lemma_pow2_mono(0, e);
    lemma_pow2_mono(e, 23);
    lemma_pow2_24();
}

fn pow2_exec(e: u64) -> (r: u64)
    requires
        e <= 23,
    ensures
        r == pow2(e as nat),
    decreases e,
{
    proof {
        lemma_pow2_bounded(e as nat);
    }
    if e == 0 {
        1
    } else {
        proof {
            lemma_pow2_bounded((e - 1) as nat);
        }
        2 * pow2_exec(e - 1)
    }
}

/// Whether two script values are the same table key: numbers by value,
/// strings by bytes, tables by identity, host objects by host identity.
pub open spec fn same_key(a: ScriptValue, b: ScriptValue) -> bool {
    match (a, b) {
        (ScriptValue::Boolean(x), ScriptValue::Boolean(y)) => x == y,
        (ScriptValue::Number(x), ScriptValue::Number(y)) => match (x.whole, y.whole) {
            (Some(i), Some(j)) => i == j,
            (None, None) => x.bits == y.bits,
            _ => false,
        },
        (ScriptValue::String(x), ScriptValue::String(y)) => x@ == y@,
        (ScriptValue::Table(x), ScriptValue::Table(y)) => x == y,
        (ScriptValue::Object(x), ScriptValue::Object(y)) => x == y,
        _ => false,
    }
}

fn bytes_eq(x: &Vec<u8>, y: &Vec<u8>) -> (r: bool)
    ensures
        r == (x@ == y@),
{
    if x.len() != y.len() {
        return false;
    }
    let mut i: usize = 0;
    while i < x.len()
        invariant
            x@.len() == y@.len(),
            i <= x@.len(),
            forall|j: int| 0 <= j < i ==> x@[j] == y@[j],
        decreases x@.len() - i,
    {
        if x[i] != y[i] {
            assert(x@[i as int] != y@[i as int]);
            return false;
        }
        i = i + 1;
    }
    assert(x@ =~= y@);
    true
}

fn same_key_exec(a: &ScriptValue, b: &ScriptValue) -> (r: bool)
    ensures
        r == same_key(*a, *b),
{
    match (a, b) {
        (ScriptValue::Boolean(x), ScriptValue::Boolean(y)) => *x == *y,
        (ScriptValue::Number(x), ScriptValue::Number(y)) => match (x.whole, y.whole) {
            (Some(i), Some(j)) => i == j,
            (None, None) => x.bits == y.bits,
            _ => false,
        },
        (ScriptValue::String(x), ScriptValue::String(y)) => bytes_eq(x, y),
        (ScriptValue::Table(x), ScriptValue::Table(y)) => *x == *y,
        (ScriptValue::Object(x), ScriptValue::Object(y)) => *x == *y,
        _ => false,
    }
}

/// The position of the first pair whose key is the same key as `k`, or the
/// number of pairs where there is none.
pub open spec fn key_pos(pairs: Seq<(ScriptValue, ScriptValue)>, k: ScriptValue) -> int
    decreases pairs.len(),
{
    if pairs.len() == 0 {
        0
    } else if key_pos(pairs.drop_last(), k) < pairs.len() - 1 {
        key_pos(pairs.drop_last(), k)
    } else if same_key(pairs.last().0, k) {
        pairs.len() - 1
    } else {
        pairs.len() as int
    }
}

pub proof fn lemma_key_pos(pairs: Seq<(ScriptValue, ScriptValue)>, k: ScriptValue, i: int)
    requires
        0 <= i <= pairs.len(),
        i < pairs.len() ==> same_key(pairs[i].0, k),
        forall|j: int| 0 <= j < i ==> !same_key(#[trigger] pairs[j].0, k),
    ensures
        key_pos(pairs, k) == i,
    decreases pairs.len(),
{
    if pairs.len() > 0 {
        let s = pairs.drop_last();
        if i < pairs.len() - 1 {
            lemma_key_pos(s, k, i);
        } else {
            assert forall|j: int| 0 <= j < s.len() implies !same_key(#[trigger] s[j].0, k) by {
                assert(s[j] == pairs[j]);
            }
            lemma_key_pos(s, k, s.len() as int);
        }
    }
}

/// A raw table write: a nil value removes the key, another value replaces
/// the key's value or adds the pair at the end.
pub open spec fn raw_set(pairs: Seq<(ScriptValue, ScriptValue)>, k: ScriptValue, v: ScriptValue) -> Seq<(ScriptValue, ScriptValue)> {
    let p = key_pos(pairs, k);
    if v is Nil {
        if p < pairs.len() { pairs.remove(p) } else { pairs }
    } else if p < pairs.len() {
        pairs.update(p, (k, v))
    } else {
        pairs.push((k, v))
    }
}

fn raw_set_exec(pairs: &mut Vec<(ScriptValue, ScriptValue)>, k: ScriptValue, v: ScriptValue)
    ensures
        final(pairs)@ == raw_set(old(pairs)@, k, v),
{
    let mut i: usize = 0;
    while i < pairs.len() && !same_key_exec(&pairs[i].0, &k)
        invariant
            i <= pairs@.len(),
            forall|j: int| 0 <= j < i ==> !same_key(#[trigger] pairs@[j].0, k),
        decreases pairs@.len() - i,
    {
        i = i + 1;
    }
    proof {
        lemma_key_pos(pairs@, k, i as int);
    }
    if matches!(v, ScriptValue::Nil) {
        if i < pairs.len() {
            let _ = pairs.remove(i);
        }
    } else if i < pairs.len() {
        pairs.set(i, (k, v));
    } else {
        pairs.push((k, v));
    }
}

/// `v` is a host value read into the script without descending into lists.
pub open spec fn shallow(e: HostEntry, v: ScriptValue) -> bool {
    match e {
        HostEntry::Null => v == ScriptValue::Nil,
        HostEntry::Number(n) => v == ScriptValue::Number(n),
        HostEntry::Text(b) => v is String && v->String_0@ == b@,
        HostEntry::Object(h) => v == ScriptValue::Object(h),
        HostEntry::List { value, .. } => v == ScriptValue::Object(value),
    }
}

/// Reads a host value into the script without descending into lists; the
/// script reaches host objects through their cached wrappers.
pub fn into_script(e: &HostEntry) -> (r: ScriptValue)
    ensures
        shallow(*e, r),
{
    match e {
        HostEntry::Null => ScriptValue::Nil,
        HostEntry::Number(n) => ScriptValue::Number(*n),
        HostEntry::Text(b) => {
            let mut c: Vec<u8> = Vec::new();
            let mut i: usize = 0;
            while i < b.len()
                invariant
                    i <= b@.len(),
                    c@ =~= b@.subrange(0, i as int),
                decreases b@.len() - i,
            {
                c.push(b[i]);
                i = i + 1;
            }
            assert(b@.subrange(0, b@.len() as int) =~= b@);
            ScriptValue::String(c)
        },
        HostEntry::Object(h) => ScriptValue::Object(*h),
        HostEntry::List { value, .. } => ScriptValue::Object(*value),
    }
}

/// The state of one host-to-script conversion: the table made for each list
/// visited so far.
pub struct TableBuild {
    pub visited: Vec<Option<usize>>,
    pub tables: Vec<Vec<(ScriptValue, ScriptValue)>>,
    /// The lists whose tables are complete.
    pub done: Ghost<Set<int>>,
}

pub open spec fn n_unvisited(s: Seq<Option<usize>>) -> nat
    decreases s.len(),
{
    if s.len() == 0 {
        0
    } else {
        n_unvisited(s.drop_last()) + if s.last() is None { 1nat } else { 0nat }
    }
}

proof fn lemma_n_unvisited_update(s: Seq<Option<usize>>, i: int, v: usize)
    requires
        0 <= i < s.len(),
        s[i] is None,
    ensures
        n_unvisited(s) >= 1,
        n_unvisited(s.update(i, Some(v))) == n_unvisited(s) - 1,
    decreases s.len(),
{
    let u = s.update(i, Some(v));
    if i < s.len() - 1 {
        assert(u.drop_last() =~= s.drop_last().update(i, Some(v)));
        lemma_n_unvisited_update(s.drop_last(), i, v);
    } else {
        assert(u.drop_last() =~= s.drop_last());
    }
}

impl TableBuild {
    /// One table per visited list, with distinct lists making distinct tables.
    pub open spec fn wf(&self, n: int) -> bool {
        &&& self.visited@.len() == n
        &&& self.tables@.len() + n_unvisited(self.visited@) == n
        &&& forall|l: int| 0 <= l < n && #[trigger] self.visited@[l] is Some ==> self.visited@[l]->Some_0 < self.tables@.len()
        &&& forall|a: int, b: int|
            0 <= a < n && 0 <= b < n && a != b && #[trigger] self.visited@[a] is Some
                && #[trigger] self.visited@[b] is Some ==> self.visited@[a] != self.visited@[b]
    }

    pub fn new(n: usize) -> (r: TableBuild)
        ensures
            r.wf(n as int),
            forall|t: int| 0 <= t < n ==> r.visited@[t] is None,
            r.done@ == Set::<int>::empty(),
    {
        let mut visited: Vec<Option<usize>> = Vec::new();
        let mut i: usize = 0;
        while i < n
            invariant
                i <= n,
                visited@.len() == i,
                n_unvisited(visited@) == i,
                forall|t: int| 0 <= t < i ==> visited@[t] is None,
            decreases n - i,
        {
            let ghost prev = visited@;
            visited.push(None);
            assert(visited@.drop_last() =~= prev);
            i = i + 1;
        }
        TableBuild { visited, tables: Vec::new(), done: Ghost(Set::empty()) }
    }
}

pub open spec fn build_step(a: TableBuild, b: TableBuild, n: int) -> bool {
    &&& b.wf(n)
    &&& b.tables@.len() >= a.tables@.len()
    &&& forall|t: int| 0 <= t < a.tables@.len() ==> #[trigger] b.tables@[t] == a.tables@[t]
    &&& a.visited@.len() == b.visited@.len()
    &&& forall|l: int| 0 <= l < a.visited@.len() && #[trigger] a.visited@[l] is Some ==> b.visited@[l] == a.visited@[l]
    &&& n_unvisited(b.visited@) <= n_unvisited(a.visited@)
}

proof fn lemma_build_trans(a: TableBuild, b: TableBuild, c: TableBuild, n: int)
    requires
        build_step(a, b, n),
        build_step(b, c, n),
    ensures
        build_step(a, c, n),
{
    assert forall|l: int| 0 <= l < a.visited@.len() && #[trigger] a.visited@[l] is Some implies c.visited@[l] == a.visited@[l] by {
        assert(b.visited@[l] == a.visited@[l]);
    }
    assert forall|t: int| 0 <= t < a.tables@.len() implies #[trigger] c.tables@[t] == a.tables@[t] by {
        assert(b.tables@[t] == a.tables@[t]);
    }
}

/// `v` is what host value `e` reads as: with `deep`, a list reads as the
/// table made for it.
pub open spec fn read_ok(e: HostEntry, v: ScriptValue, deep: bool, visited: Seq<Option<usize>>) -> bool {
    match e {
        HostEntry::List { id, .. } => if deep {
            id < visited.len() && visited[id as int] is Some && v == ScriptValue::Table(visited[id as int]->Some_0)
        } else {
            shallow(e, v)
        },
        _ => shallow(e, v),
    }
}

/// The write that entry `i` of a host list makes: an element without an
/// associated value goes under its position, one with a value keys it.
pub open spec fn write_ok(entry: (HostEntry, HostEntry), i: int, w: (ScriptValue, ScriptValue), deep: bool, visited: Seq<Option<usize>>) -> bool {
    if entry.1 is Null {
        &&& w.0 is Number && w.0->Number_0.whole == Some((i + 1) as i64)
        &&& read_ok(entry.0, w.1, deep, visited)
    } else {
        &&& read_ok(entry.0, w.0, deep, visited)
        &&& read_ok(entry.1, w.1, deep, visited)
    }
}

/// The pairs a table holds after the first `n` writes, from empty.
pub open spec fn after_writes(w: Seq<(ScriptValue, ScriptValue)>, n: int) -> Seq<(ScriptValue, ScriptValue)>
    decreases n,
{
    if n <= 0 {
        seq![]
    } else {
        raw_set(after_writes(w, n - 1), w[n - 1].0, w[n - 1].1)
    }
}

proof fn lemma_after_writes_prefix(a: Seq<(ScriptValue, ScriptValue)>, b: Seq<(ScriptValue, ScriptValue)>, n: int)
    requires
        0 <= n <= a.len(),
        n <= b.len(),
        forall|j: int| 0 <= j < n ==> a[j] == b[j],
    ensures
        after_writes(a, n) == after_writes(b, n),
    decreases n,
{
    if n > 0 {
        lemma_after_writes_prefix(a, b, n - 1);
    }
}

proof fn lemma_read_mono(e: HostEntry, v: ScriptValue, deep: bool, a: Seq<Option<usize>>, b: Seq<Option<usize>>)
    requires
        read_ok(e, v, deep, a),
        a.len() == b.len(),
        forall|l: int| 0 <= l < a.len() && #[trigger] a[l] is Some ==> b[l] == a[l],
    ensures
        read_ok(e, v, deep, b),
{
    if let HostEntry::List { id, .. } = e {
        if deep {
            assert(a[id as int] is Some);
        }
    }
}

/// A table holds the writes of a list's entries, in order, from empty.
pub open spec fn table_content(
    entries: Seq<(HostEntry, HostEntry)>,
    tab: Seq<(ScriptValue, ScriptValue)>,
    deep: bool,
    visited: Seq<Option<usize>>,
) -> bool {
    exists|w: Seq<(ScriptValue, ScriptValue)>|
        w.len() == entries.len() && (forall|i: int| 0 <= i < w.len() ==> #[trigger] write_ok(entries[i], i, w[i], deep, visited))
            && tab == after_writes(w, w.len() as int)
}

impl TableBuild {
    /// Every completed list was visited, and its table holds its entries.
    pub open spec fn content_ok(&self, heap: HostHeap, deep: bool) -> bool {
        forall|u: int| #[trigger] self.done@.contains(u) ==> 0 <= u < heap.lists@.len() && self.visited@[u] is Some
            && table_content(heap.lists@[u]@, self.tables@[self.visited@[u]->Some_0 as int]@, deep, self.visited@)
    }
}

pub open spec fn bdone_step(a: TableBuild, b: TableBuild, heap: HostHeap, deep: bool) -> bool {
    &&& b.content_ok(heap, deep)
    &&& forall|u: int| #[trigger] a.done@.contains(u) ==> b.done@.contains(u)
    &&& forall|u: int| #[trigger] b.done@.contains(u) ==> a.done@.contains(u) || a.visited@[u] is None
}

pub open spec fn bnew_done_but(a: TableBuild, b: TableBuild, n: int, l: int) -> bool {
    forall|u: int| 0 <= u < n && #[trigger] b.visited@[u] is Some && a.visited@[u] is None && u != l ==> b.done@.contains(u)
}

proof fn lemma_content_mono(entries: Seq<(HostEntry, HostEntry)>, tab: Seq<(ScriptValue, ScriptValue)>, deep: bool, a: Seq<Option<usize>>, b: Seq<Option<usize>>)
    requires
        table_content(entries, tab, deep, a),
        a.len() == b.len(),
        forall|l: int| 0 <= l < a.len() && #[trigger] a[l] is Some ==> b[l] == a[l],
    ensures
        table_content(entries, tab, deep, b),
{
    let w = choose|w: Seq<(ScriptValue, ScriptValue)>|
        w.len() == entries.len() && (forall|i: int| 0 <= i < w.len() ==> #[trigger] write_ok(entries[i], i, w[i], deep, a))
            && tab == after_writes(w, w.len() as int);
    assert forall|i: int| 0 <= i < w.len() implies #[trigger] write_ok(entries[i], i, w[i], deep, b) by {
        assert(write_ok(entries[i], i, w[i], deep, a));
        if entries[i].1 is Null {
            lemma_read_mono(entries[i].0, w[i].1, deep, a, b);
        } else {
            lemma_read_mono(entries[i].0, w[i].0, deep, a, b);
            lemma_read_mono(entries[i].1, w[i].1, deep, a, b);
        }
    }
}

proof fn lemma_bcontent_keep(heap: HostHeap, deep: bool, a: TableBuild, b: TableBuild)
    requires
        a.content_ok(heap, deep),
        a.visited@.len() == heap.lists@.len(),
        a.visited@.len() == b.visited@.len(),
        forall|l: int| 0 <= l < a.visited@.len() && #[trigger] a.visited@[l] is Some ==> b.visited@[l] == a.visited@[l],
        b.done@ == a.done@,
        forall|u: int| #[trigger] a.done@.contains(u) ==> b.tables@[a.visited@[u]->Some_0 as int] == a.tables@[a.visited@[u]->Some_0 as int],
    ensures
        b.content_ok(heap, deep),
{
    assert forall|u: int| #[trigger] b.done@.contains(u) implies 0 <= u < heap.lists@.len() && b.visited@[u] is Some
        && table_content(heap.lists@[u]@, b.tables@[b.visited@[u]->Some_0 as int]@, deep, b.visited@) by {
        assert(a.done@.contains(u));
        assert(b.visited@[u] == a.visited@[u]);
        lemma_content_mono(heap.lists@[u]@, a.tables@[a.visited@[u]->Some_0 as int]@, deep, a.visited@, b.visited@);
    }
}

proof fn lemma_btrack(heap: HostHeap, deep: bool, o: TableBuild, b: TableBuild, c: TableBuild, n: int, l: int)
    requires
        n == heap.lists@.len(),
        0 <= l < n,
        build_step(o, b, n),
        build_step(b, c, n),
        bdone_step(o, b, heap, deep),
        bdone_step(b, c, heap, deep),
        bnew_done_but(o, b, n, l),
        forall|u: int| 0 <= u < n && #[trigger] c.visited@[u] is Some && b.visited@[u] is None ==> c.done@.contains(u),
        b.visited@[l] is Some,
        !b.done@.contains(l),
    ensures
        build_step(o, c, n),
        bdone_step(o, c, heap, deep),
        !c.done@.contains(l),
        bnew_done_but(o, c, n, l),
{
    lemma_build_trans(o, b, c, n);
    assert forall|u: int| #[trigger] c.done@.contains(u) implies o.done@.contains(u) || o.visited@[u] is None by {
        assert(0 <= u < n);
        if !b.done@.contains(u) {
            assert(b.visited@[u] is None);
            if o.visited@[u] is Some {
                assert(b.visited@[u] == o.visited@[u]);
            }
        }
    }
    assert forall|u: int| 0 <= u < n && #[trigger] c.visited@[u] is Some && o.visited@[u] is None && u != l implies c.done@.contains(u) by {
        if b.visited@[u] is Some {
            assert(b.done@.contains(u));
        }
    }
}

fn convert_entry(heap: &HostHeap, e: &HostEntry, deep: bool, b: &mut TableBuild) -> (r: ScriptValue)
    requires
        heap.wf(),
        entry_refs_ok(*e, heap.lists@.len() as int),
        old(b).wf(heap.lists@.len() as int),
        old(b).content_ok(*heap, deep),
    ensures
        build_step(*old(b), *final(b), heap.lists@.len() as int),
        read_ok(*e, r, deep, final(b).visited@),
        bdone_step(*old(b), *final(b), *heap, deep),
        forall|u: int| 0 <= u < heap.lists@.len() && #[trigger] final(b).visited@[u] is Some && old(b).visited@[u] is None
            ==> final(b).done@.contains(u),
    decreases n_unvisited(old(b).visited@), 1nat,
{
    match e {
        HostEntry::List { id, .. } => {
            if deep {
                let t = convert_to_table_impl(heap, *id, deep, b);
                ScriptValue::Table(t)
            } else {
                into_script(e)
            }
        },
        _ => into_script(e),
    }
}

/// Reads host list `l` into a script table, or hands back the table already
/// made for it. An element without an associated value is stored under its
/// position; an element with one becomes that value's key. With `deep`,
/// lists inside become tables too.
pub fn convert_to_table_impl(heap: &HostHeap, l: usize, deep: bool, b: &mut TableBuild) -> (r: usize)
    requires
        heap.wf(),
        l < heap.lists@.len(),
        old(b).wf(heap.lists@.len() as int),
        old(b).content_ok(*heap, deep),
    ensures
        build_step(*old(b), *final(b), heap.lists@.len() as int),
        bdone_step(*old(b), *final(b), *heap, deep),
        forall|u: int| 0 <= u < heap.lists@.len() && #[trigger] final(b).visited@[u] is Some && old(b).visited@[u] is None
            ==> final(b).done@.contains(u),
        final(b).visited@[l as int] == Some(r),
        old(b).visited@[l as int] is Some ==> *final(b) == *old(b),
        old(b).visited@[l as int] is None ==> exists|w: Seq<(ScriptValue, ScriptValue)>|
            w.len() == heap.lists@[l as int]@.len() && (forall|i: int| 0 <= i < w.len() ==> #[trigger] write_ok(
                heap.lists@[l as int]@[i],
                i,
                w[i],
                deep,
                final(b).visited@,
            )) && final(b).tables@[r as int]@ == after_writes(w, w.len() as int),
    decreases n_unvisited(old(b).visited@), 0nat,
{
    if let Some(t) = b.visited[l] {
        return t;
    }
    let ghost n = heap.lists@.len() as int;
    let t = b.tables.len();
    b.tables.push(Vec::new());
    proof {
        lemma_n_unvisited_update(b.visited@, l as int, t);
    }
    b.visited.set(l, Some(t));
    assert(b.wf(n)) by {
        assert forall|x: int| 0 <= x < n && #[trigger] b.visited@[x] is Some implies b.visited@[x]->Some_0 < b.tables@.len() by {
            if x != l {
                assert(old(b).visited@[x] is Some);
            }
        }
        assert forall|x: int, y: int|
            0 <= x < n && 0 <= y < n && x != y && #[trigger] b.visited@[x] is Some
                && #[trigger] b.visited@[y] is Some implies b.visited@[x] != b.visited@[y] by {
            if x != l && y != l {
                assert(old(b).visited@[x] is Some && old(b).visited@[y] is Some);
            } else if x == l {
                assert(old(b).visited@[y] is Some);
            } else {
                assert(old(b).visited@[x] is Some);
            }
        }
    }
    assert(build_step(*old(b), *b, n)) by {
        assert forall|x: int| 0 <= x < old(b).visited@.len() && #[trigger] old(b).visited@[x] is Some implies b.visited@[x] == old(b).visited@[x] by {
            assert(x != l);
        }
    }
    proof {
        assert forall|u: int| #[trigger] old(b).done@.contains(u) implies b.tables@[old(b).visited@[u]->Some_0 as int]
            == old(b).tables@[old(b).visited@[u]->Some_0 as int] by {
            assert(old(b).visited@[u] is Some);
        }
        lemma_bcontent_keep(*heap, deep, *old(b), *b);
        assert(!old(b).done@.contains(l as int));
    }
    let entries = &heap.lists[l];
    let mut pairs: Vec<(ScriptValue, ScriptValue)> = Vec::new();
    let ghost mut w: Seq<(ScriptValue, ScriptValue)> = seq![];
    let mut i: usize = 0;
    while i < entries.len()
        invariant
            heap.wf(),
            l < heap.lists@.len(),
            n == heap.lists@.len() as int,
            entries@ == heap.lists@[l as int]@,
            entries@.len() <= MAX_LIST_LEN,
            i <= entries@.len(),
            b.wf(n),
            build_step(*old(b), *b, n),
            b.visited@[l as int] == Some(t),
            t == old(b).tables@.len(),
            b.content_ok(*heap, deep),
            bdone_step(*old(b), *b, *heap, deep),
            bnew_done_but(*old(b), *b, n, l as int),
            !b.done@.contains(l as int),
            n_unvisited(b.visited@) < n_unvisited(old(b).visited@),
            w.len() == i,
            forall|j: int| 0 <= j < i ==> #[trigger] write_ok(entries@[j], j, w[j], deep, b.visited@),
            pairs@ == after_writes(w, i as int),
        decreases entries@.len() - i,
    {
        proof {
            assert(entry_refs_ok(heap.lists@[l as int]@[i as int].0, n));
        }
        let (key, value) = &entries[i];
        let ghost before = *b;
        let k = convert_entry(heap, key, deep, b);
        proof {
            lemma_btrack(*heap, deep, *old(b), before, *b, n, l as int);
            lemma_build_trans(*old(b), before, *b, n);
            assert(before.visited@[l as int] is Some);
        }
        let ghost mid = *b;
        let v = convert_entry(heap, value, deep, b);
        proof {
            lemma_btrack(*heap, deep, *old(b), mid, *b, n, l as int);
            lemma_build_trans(*old(b), mid, *b, n);
            assert(mid.visited@[l as int] is Some);
            lemma_read_mono(*key, k, deep, mid.visited@, b.visited@);
            assert forall|j: int| 0 <= j < i implies #[trigger] write_ok(entries@[j], j, w[j], deep, b.visited@) by {
                assert(write_ok(entries@[j], j, w[j], deep, before.visited@));
                if entries@[j].1 is Null {
                    lemma_read_mono(entries@[j].0, w[j].1, deep, before.visited@, b.visited@);
                } else {
                    lemma_read_mono(entries@[j].0, w[j].0, deep, before.visited@, b.visited@);
                    lemma_read_mono(entries@[j].1, w[j].1, deep, before.visited@, b.visited@);
                }
            }
        }
        let ghost w0 = w;
        if matches!(value, HostEntry::Null) {
            let idx = ScriptValue::Number(index_number((i + 1) as u64));
            proof {
                w = w.push((idx, k));
            }
            raw_set_exec(&mut pairs, idx, k);
        } else {
            proof {
                w = w.push((k, v));
            }
            raw_set_exec(&mut pairs, k, v);
        }
        proof {
            lemma_after_writes_prefix(w0, w, i as int);
            assert(w.drop_last() =~= w.subrange(0, i as int));
            assert forall|j: int| 0 <= j < i + 1 implies #[trigger] write_ok(entries@[j], j, w[j], deep, b.visited@) by {
                if j < i {
                    assert(w[j] == w.subrange(0, i as int)[j]);
                }
            }
        }
        i = i + 1;
    }
    let ghost before_set = *b;
    b.tables.set(t, pairs);
    proof {
        assert forall|u: int| #[trigger] before_set.done@.contains(u) implies b.tables@[before_set.visited@[u]->Some_0 as int]
            == before_set.tables@[before_set.visited@[u]->Some_0 as int] by {
            assert(u != l);
            assert(before_set.visited@[u] != before_set.visited@[l as int]);
        }
        lemma_bcontent_keep(*heap, deep, before_set, *b);
        assert(table_content(heap.lists@[l as int]@, b.tables@[t as int]@, deep, b.visited@));
    }
    b.done = Ghost(b.done@.insert(l as int));
    t
}

/// Script tables read from host lists: `visited` gives the table made for
/// each list reached, `root` the table of the list asked for.
pub struct ReadTables {
    pub heap: ScriptHeap,
    pub root: usize,
    pub visited: Vec<Option<usize>>,
}

/// Reads host list `l` into script tables.
pub fn convert_to_table(heap: &HostHeap, l: usize, deep: bool) -> (r: ReadTables)
    requires
        heap.wf(),
        l < heap.lists@.len(),
    ensures
        r.root < r.heap.tables@.len(),
        r.heap.tables@.len() <= heap.lists@.len(),
        r.visited@.len() == heap.lists@.len(),
        r.visited@[l as int] == Some(r.root),
        forall|u: int| 0 <= u < heap.lists@.len() && #[trigger] r.visited@[u] is Some ==> r.visited@[u]->Some_0
            < r.heap.tables@.len() && table_content(heap.lists@[u]@, r.heap.tables@[r.visited@[u]->Some_0 as int]@, deep, r.visited@),
        exists|w: Seq<(ScriptValue, ScriptValue)>|
            w.len() == heap.lists@[l as int]@.len() && (forall|i: int| 0 <= i < w.len() ==> #[trigger] write_ok(
                heap.lists@[l as int]@[i],
                i,
                w[i],
                deep,
                r.visited@,
            )) && r.heap.tables@[r.root as int]@ == after_writes(w, w.len() as int),
{
    let mut b = TableBuild::new(heap.lists.len());
    let ghost start = b;
    let t = convert_to_table_impl(heap, l, deep, &mut b);
    proof {
        assert forall|u: int| 0 <= u < heap.lists@.len() && #[trigger] b.visited@[u] is Some implies b.visited@[u]->Some_0
            < b.tables@.len() && table_content(heap.lists@[u]@, b.tables@[b.visited@[u]->Some_0 as int]@, deep, b.visited@) by {
            assert(start.visited@[u] is None);
            assert(b.done@.contains(u));
        }
    }
    ReadTables { heap: ScriptHeap { tables: b.tables }, root: t, visited: b.visited }
}

} // verus!
