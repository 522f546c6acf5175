use vstd::prelude::*;

use crate::conversion::{
    strict_flat, MAX_LIST_LEN, assoc_pairs, converted_ok, entry_ok, first_zero, host_null, item_view, key_rank,
    leaf_spec, max_whole, unclaimed, whole_key, ConversionVariant, Converted,
    HostItem, HostList, ItemView, ScriptHeap, ScriptNumber, ScriptValue,
};
use crate::to_table::{after_writes, read_ok, same_key, shallow, write_ok, HostEntry};
use crate::types::ValueTag;
use crate::value::HostValue;

verus! {

/// A value the host holds as it is: a number, a string without zero
/// bytes, or a host object other than null.
pub open spec fn plain_value(v: ScriptValue) -> bool {
    match v {
        ScriptValue::Number(_) => true,
        ScriptValue::String(b) => first_zero(b@) == b@.len(),
        ScriptValue::Object(h) => h.tag != ValueTag::Null,
        _ => false,
    }
}

/// A table without nested tables whose keys are positions from 1 or
/// strings without zero bytes, whose values the host holds as they are,
/// and whose string keys name no string stored by position.
pub open spec fn plain_table(pairs: Seq<(ScriptValue, ScriptValue)>) -> bool {
    &&& forall|i: int| 0 <= i < pairs.len() ==> plain_value(#[trigger] pairs[i].1)
    &&& forall|i: int| 0 <= i < pairs.len() ==> match #[trigger] pairs[i].0 {
        ScriptValue::Number(n) => n.whole is Some && n.whole->Some_0 >= 1,
        ScriptValue::String(b) => first_zero(b@) == b@.len(),
        _ => false,
    }
    &&& forall|i: int, j: int| 0 <= i < pairs.len() && 0 <= j < pairs.len() && i != j && #[trigger] pairs[i].0 is String
        && #[trigger] pairs[j].0 is String ==> pairs[i].0->String_0@ != pairs[j].0->String_0@
    &&& forall|i: int, j: int| 0 <= i < pairs.len() && 0 <= j < pairs.len() && #[trigger] pairs[i].0 is String
        && #[trigger] pairs[j].1 is String && pairs[j].0 is Number ==> pairs[i].0->String_0@ != pairs[j].1->String_0@
}

/// How the host reads back an item it was given.
pub open spec fn entry_of(i: HostItem) -> HostEntry {
    match i {
        HostItem::Value(h) => if h.tag == ValueTag::Null {
            HostEntry::Null
        } else if h.tag == ValueTag::Number {
            HostEntry::Number(ScriptNumber { whole: None, bits: h.data })
        } else {
            HostEntry::Object(h)
        },
        HostItem::Bytes(b) => HostEntry::Text(b),
        _ => HostEntry::Null,
    }
}

/// The entries a host list built from `list` reads back: each position
/// without an associated value, then each associative write.
pub open spec fn read_back(list: HostList) -> Seq<(HostEntry, HostEntry)> {
    list.items@.map_values(|i: HostItem| (entry_of(i), HostEntry::Null)) + list.assoc@.map_values(
        |kv: (HostItem, HostItem)| (entry_of(kv.0), entry_of(kv.1)),
    )
}

/// The positional writes among the first `n` that store a value.
pub open spec fn stored(w: Seq<(ScriptValue, ScriptValue)>, n: int) -> Seq<(ScriptValue, ScriptValue)>
    decreases n,
{
    if n <= 0 {
        seq![]
    } else if w[n - 1].1 is Nil {
        stored(w, n - 1)
    } else {
        stored(w, n - 1).push(w[n - 1])
    }
}

proof fn lemma_stored_keys(w: Seq<(ScriptValue, ScriptValue)>, n: int)
    requires
        0 <= n <= w.len(),
        forall|i: int| 0 <= i < n ==> (#[trigger] w[i].0) is Number && w[i].0->Number_0.whole == Some((i + 1) as i64),
    ensures
        forall|j: int| 0 <= j < stored(w, n).len() ==> exists|i: int| 0 <= i < n && #[trigger] stored(w, n)[j] == w[i]
            && !(w[i].1 is Nil),
    decreases n,
{
    if n > 0 {
        lemma_stored_keys(w, n - 1);
        let s = stored(w, n);
        assert forall|j: int| 0 <= j < s.len() implies exists|i: int| 0 <= i < n && #[trigger] s[j] == w[i] && !(w[i].1 is Nil) by {
            if j < stored(w, n - 1).len() {
                let i = choose|i: int| 0 <= i < n - 1 && #[trigger] stored(w, n - 1)[j] == w[i] && !(w[i].1 is Nil);
                assert(s[j] == w[i]);
            } else {
                assert(s[j] == w[n - 1]);
            }
        }
    }
}

/// Writing positions in order, from an empty table, leaves exactly the
/// positions that store a value, in order.
proof fn lemma_positions_written(w: Seq<(ScriptValue, ScriptValue)>, n: int)
    requires
        0 <= n <= w.len(),
        n < i64::MAX,
        forall|i: int| 0 <= i < n ==> (#[trigger] w[i].0) is Number && w[i].0->Number_0.whole == Some((i + 1) as i64),
    ensures
        after_writes(w, n) == stored(w, n),
    decreases n,
{
    if n > 0 {
        lemma_positions_written(w, n - 1);
        lemma_stored_keys(w, n - 1);
        let s = stored(w, n - 1);
        assert forall|j: int| 0 <= j < s.len() implies !same_key(#[trigger] s[j].0, w[n - 1].0) by {
            let i = choose|i: int| 0 <= i < n - 1 && #[trigger] s[j] == w[i] && !(w[i].1 is Nil);
            assert(w[i].0 is Number);
            assert(w[n - 1].0 is Number);
            assert(w[i].0->Number_0.whole == Some((i + 1) as i64));
            assert(w[n - 1].0->Number_0.whole == Some(((n - 1) + 1) as i64));
            assert((i + 1) as i64 != ((n - 1) + 1) as i64);
        }
        crate::to_table::lemma_key_pos(s, w[n - 1].0, s.len() as int);
    }
}

/// After the positions, writes under distinct string keys of stored values
/// are appended in order.
proof fn lemma_assoc_written(w: Seq<(ScriptValue, ScriptValue)>, n1: int, n: int, base: Seq<(ScriptValue, ScriptValue)>)
    requires
        0 <= n1 <= n <= w.len(),
        after_writes(w, n1) == base,
        forall|j: int| 0 <= j < base.len() ==> (#[trigger] base[j].0) is Number,
        forall|i: int| n1 <= i < w.len() ==> (#[trigger] w[i].0) is String && !(w[i].1 is Nil),
        forall|i: int, k: int| n1 <= i < w.len() && n1 <= k < w.len() && i != k ==> (#[trigger] w[i].0)->String_0@
            != (#[trigger] w[k].0)->String_0@,
    ensures
        after_writes(w, n) == base + w.subrange(n1, n),
    decreases n - n1,
{
    if n == n1 {
        assert(w.subrange(n1, n) =~= Seq::<(ScriptValue, ScriptValue)>::empty());
        assert(base + w.subrange(n1, n) =~= base);
    } else {
        lemma_assoc_written(w, n1, n - 1, base);
        let s = base + w.subrange(n1, n - 1);
        assert forall|j: int| 0 <= j < s.len() implies !same_key(#[trigger] s[j].0, w[n - 1].0) by {
            if j < base.len() {
                assert(s[j] == base[j]);
                assert(base[j].0 is Number);
            } else {
                assert(s[j] == w[n1 + (j - base.len())]);
                assert(w[n1 + (j - base.len())].0->String_0@ != w[n - 1].0->String_0@);
            }
        }
        crate::to_table::lemma_key_pos(s, w[n - 1].0, s.len() as int);
        assert(s.push(w[n - 1]) =~= base + w.subrange(n1, n));
    }
}

proof fn lemma_max_whole_prefix(a: Seq<(ScriptValue, ScriptValue)>, b: Seq<(ScriptValue, ScriptValue)>, n: int)
    requires
        0 <= n <= a.len(),
        n <= b.len(),
        forall|j: int| 0 <= j < n ==> a[j] == b[j],
    ensures
        max_whole(a, n) == max_whole(b, n),
    decreases n,
{
    if n > 0 {
        lemma_max_whole_prefix(a, b, n - 1);
    }
}

/// Pairs without whole-number keys leave the largest whole-number key as it was.
proof fn lemma_max_whole_tail(s: Seq<(ScriptValue, ScriptValue)>, r: Seq<(ScriptValue, ScriptValue)>, n: int)
    requires
        0 <= n <= r.len(),
        forall|j: int| 0 <= j < r.len() ==> whole_key(#[trigger] r[j].0) is None,
    ensures
        max_whole(s + r, s.len() + n) == max_whole(s, s.len() as int),
    decreases n,
{
    if n == 0 {
        lemma_max_whole_prefix(s + r, s, s.len() as int);
    } else {
        lemma_max_whole_tail(s, r, n - 1);
        assert((s + r)[s.len() + n - 1] == r[n - 1]);
    }
}

/// The largest position stored among the first `n` writes is at most `n`,
/// and is `n` where the last of them stores a value.
proof fn lemma_max_stored(w: Seq<(ScriptValue, ScriptValue)>, n: int)
    requires
        0 <= n <= w.len(),
        n < i64::MAX,
        forall|i: int| 0 <= i < n ==> (#[trigger] w[i].0) is Number && w[i].0->Number_0.whole == Some((i + 1) as i64),
    ensures
        max_whole(stored(w, n), stored(w, n).len() as int) <= n,
        n > 0 && !(w[n - 1].1 is Nil) ==> max_whole(stored(w, n), stored(w, n).len() as int) == n,
    decreases n,
{
    if n > 0 {
        lemma_max_stored(w, n - 1);
        let s = stored(w, n - 1);
        if !(w[n - 1].1 is Nil) {
            let s2 = s.push(w[n - 1]);
            lemma_max_whole_prefix(s2, s, s.len() as int);
            assert(whole_key(s2[s.len() as int].0) == Some(((n - 1) + 1) as i64));
        }
    }
}

/// A write that stores a value is among the stored ones.
proof fn lemma_stored_has(w: Seq<(ScriptValue, ScriptValue)>, n: int, p: int)
    requires
        0 <= p < n <= w.len(),
        !(w[p].1 is Nil),
    ensures
        exists|j: int| 0 <= j < stored(w, n).len() && #[trigger] stored(w, n)[j] == w[p],
    decreases n,
{
    if p < n - 1 {
        lemma_stored_has(w, n - 1, p);
        let j = choose|j: int| 0 <= j < stored(w, n - 1).len() && #[trigger] stored(w, n - 1)[j] == w[p];
        if !(w[n - 1].1 is Nil) {
            assert(stored(w, n) == stored(w, n - 1).push(w[n - 1]));
            assert(stored(w, n)[j] == stored(w, n - 1)[j]);
        } else {
            assert(stored(w, n) == stored(w, n - 1));
        }
        assert(stored(w, n)[j] == w[p]);
    } else {
        assert(stored(w, n)[stored(w, n).len() - 1] == w[p]);
    }
}

proof fn lemma_assoc_pairs_prefix(a: Seq<(ScriptValue, ScriptValue)>, b: Seq<(ScriptValue, ScriptValue)>, n: int)
    requires
        0 <= n <= a.len(),
        n <= b.len(),
        forall|j: int| 0 <= j < n ==> a[j] == b[j],
    ensures
        assoc_pairs(a, n) == assoc_pairs(b, n),
    decreases n,
{
    if n > 0 {
        lemma_assoc_pairs_prefix(a, b, n - 1);
    }
}

/// Pairs keyed by numbers leave no associative writes; string-keyed ones are
/// all of them.
proof fn lemma_assoc_pairs_split(s: Seq<(ScriptValue, ScriptValue)>, r: Seq<(ScriptValue, ScriptValue)>, n: int)
    requires
        0 <= n <= r.len(),
        forall|j: int| 0 <= j < s.len() ==> (#[trigger] s[j].0) is Number,
        forall|j: int| 0 <= j < r.len() ==> (#[trigger] r[j].0) is String,
    ensures
        assoc_pairs(s + r, s.len() + n) == r.subrange(0, n),
    decreases s.len() + n,
{
    if n == 0 {
        lemma_assoc_pairs_numbers(s, s.len() as int);
        lemma_assoc_pairs_prefix(s + r, s, s.len() as int);
        assert(r.subrange(0, 0) =~= Seq::<(ScriptValue, ScriptValue)>::empty());
    } else {
        lemma_assoc_pairs_split(s, r, n - 1);
        assert((s + r)[s.len() + n - 1] == r[n - 1]);
        assert(r.subrange(0, n - 1).push(r[n - 1]) =~= r.subrange(0, n));
    }
}

proof fn lemma_assoc_pairs_numbers(s: Seq<(ScriptValue, ScriptValue)>, n: int)
    requires
        0 <= n <= s.len(),
        forall|j: int| 0 <= j < s.len() ==> (#[trigger] s[j].0) is Number,
    ensures
        assoc_pairs(s, n).len() == 0,
    decreases n,
{
    if n > 0 {
        lemma_assoc_pairs_numbers(s, n - 1);
        assert(s[n - 1].0 is Number);
    }
}

/// The positions in the table of the associative pairs among the first `n`.
pub open spec fn assoc_index(pairs: Seq<(ScriptValue, ScriptValue)>, n: int) -> Seq<int>
    decreases n,
{
    if n <= 0 {
        seq![]
    } else if key_rank(pairs[n - 1].0) == 2 {
        assoc_index(pairs, n - 1).push(n - 1)
    } else {
        assoc_index(pairs, n - 1)
    }
}

/// Every associative pair is one of the table's pairs with a key that is
/// not a number, in the table's order.
proof fn lemma_assoc_pairs_from(pairs: Seq<(ScriptValue, ScriptValue)>, n: int)
    requires
        0 <= n <= pairs.len(),
    ensures
        assoc_index(pairs, n).len() == assoc_pairs(pairs, n).len(),
        forall|j: int| 0 <= j < assoc_index(pairs, n).len() ==> 0 <= #[trigger] assoc_index(pairs, n)[j] < n
            && assoc_pairs(pairs, n)[j] == pairs[assoc_index(pairs, n)[j]] && key_rank(pairs[assoc_index(pairs, n)[j]].0) == 2,
        forall|j: int, k: int| 0 <= j < k < assoc_index(pairs, n).len() ==> #[trigger] assoc_index(pairs, n)[j]
            < #[trigger] assoc_index(pairs, n)[k],
    decreases n,
{
    if n > 0 {
        lemma_assoc_pairs_from(pairs, n - 1);
        let idx = assoc_index(pairs, n - 1);
        let idx2 = assoc_index(pairs, n);
        if key_rank(pairs[n - 1].0) == 2 {
            assert forall|j: int| 0 <= j < idx2.len() implies 0 <= #[trigger] idx2[j] < n && assoc_pairs(pairs, n)[j]
                == pairs[idx2[j]] && key_rank(pairs[idx2[j]].0) == 2 by {
                if j < idx.len() {
                    assert(idx2[j] == idx[j]);
                    assert(assoc_pairs(pairs, n)[j] == assoc_pairs(pairs, n - 1)[j]);
                }
            }
            assert forall|j: int, k: int| 0 <= j < k < idx2.len() implies #[trigger] idx2[j] < #[trigger] idx2[k] by {
                if k < idx.len() {
                    assert(idx2[k] == idx[k]);
                    assert(idx2[j] == idx[j]);
                } else {
                    assert(idx2[j] == idx[j]);
                }
            }
        }
    }
}

/// An item the host reads back as the same value.
pub open spec fn good_item(i: HostItem) -> bool {
    match i {
        HostItem::Value(h) => h.tag != ValueTag::Null,
        HostItem::Bytes(b) => first_zero(b@) == b@.len(),
        _ => false,
    }
}

/// The list a conversion made for table `t`.
pub open spec fn list_of(c: Converted, t: int) -> HostList {
    c.lists@[c.visited@[t]->Some_0 as int]
}

proof fn lemma_plain_leaf(v: ScriptValue, item: HostItem)
    requires
        plain_value(v),
        leaf_spec(v) == Ok::<ItemView, Seq<char>>(item_view(item)),
    ensures
        good_item(item),
{
    match v {
        ScriptValue::String(b) => {
            assert(item_view(item) == ItemView::Bytes(b@));
        },
        ScriptValue::Number(n) => {},
        _ => {},
    }
}

/// A good item read back into the script converts to itself again.
proof fn lemma_read_back_leaf(item: HostItem, sv: ScriptValue)
    requires
        good_item(item),
        shallow(entry_of(item), sv),
    ensures
        leaf_spec(sv) == Ok::<ItemView, Seq<char>>(item_view(item)),
        !(sv is Nil),
        !(sv is Table),
{
    match item {
        HostItem::Value(h) => {
            if h.tag == ValueTag::Number {
                assert(item_view(item) == ItemView::Value(HostValue { tag: ValueTag::Number, data: h.data }));
            }
        },
        HostItem::Bytes(b) => {
            assert(sv->String_0@ == b@);
        },
        _ => {},
    }
}

proof fn lemma_max_attained(pairs: Seq<(ScriptValue, ScriptValue)>, n: int)
    requires
        0 <= n <= pairs.len(),
        max_whole(pairs, n) > 0,
    ensures
        exists|i: int| 0 <= i < n && #[trigger] whole_key(pairs[i].0) == Some(max_whole(pairs, n) as i64),
    decreases n,
{
    if n > 0 {
        let m = max_whole(pairs, n - 1);
        match whole_key(pairs[n - 1].0) {
            Some(k) => {
                if k > m {
                    assert(whole_key(pairs[n - 1].0) == Some(max_whole(pairs, n) as i64));
                } else {
                    lemma_max_attained(pairs, n - 1);
                    let i = choose|i: int| 0 <= i < n - 1 && #[trigger] whole_key(pairs[i].0) == Some(max_whole(pairs, n - 1) as i64);
                    assert(whole_key(pairs[i].0) == Some(max_whole(pairs, n) as i64));
                }
            },
            None => {
                lemma_max_attained(pairs, n - 1);
                let i = choose|i: int| 0 <= i < n - 1 && #[trigger] whole_key(pairs[i].0) == Some(max_whole(pairs, n - 1) as i64);
                assert(whole_key(pairs[i].0) == Some(max_whole(pairs, n) as i64));
            },
        }
    }
}

/// Each position of a strict conversion of a plain table is null where no
/// key names it, and otherwise an item the host reads back as itself.
proof fn lemma_items_plain(heap: ScriptHeap, t: int, c: Converted, v: ConversionVariant, p: int)
    requires
        0 <= t < heap.tables@.len(),
        plain_table(heap.tables@[t]@),
        converted_ok(heap, t, c, v, false),
        0 <= p < list_of(c, t).items@.len(),
    ensures
        ({
            let pairs = heap.tables@[t]@;
            let item = list_of(c, t).items@[p];
            if unclaimed(pairs, pairs.len() as int, p) {
                item_view(item) == ItemView::Value(host_null())
            } else {
                good_item(item)
            }
        }),
{
    let pairs = heap.tables@[t]@;
    let list = list_of(c, t);
    crate::conversion::lemma_positions_by_key(heap, t, c, v, false, p);
    if !unclaimed(pairs, pairs.len() as int, p) {
        let i = choose|i: int| 0 <= i < pairs.len() && !(#[trigger] whole_key(pairs[i].0) != Some((p + 1) as i64));
        assert(plain_value(pairs[i].1));
        assert(entry_ok(pairs[i].1, list.items@[p], false, c.visited@));
        lemma_plain_leaf(pairs[i].1, list.items@[p]);
    }
}

/// The associative writes of a strict conversion of a plain table: string
/// keys as their bytes, and values the host reads back as themselves.
proof fn lemma_assoc_plain(heap: ScriptHeap, t: int, c: Converted, v: ConversionVariant, j: int)
    requires
        0 <= t < heap.tables@.len(),
        plain_table(heap.tables@[t]@),
        converted_ok(heap, t, c, v, false),
        0 <= j < list_of(c, t).assoc@.len(),
    ensures
        ({
            let pairs = heap.tables@[t]@;
            let ap = assoc_pairs(pairs, pairs.len() as int);
            let e = list_of(c, t).assoc@[j];
            &&& ap[j].0 is String
            &&& item_view(e.0) == ItemView::Bytes(ap[j].0->String_0@)
            &&& good_item(e.0)
            &&& good_item(e.1)
        }),
{
    let pairs = heap.tables@[t]@;
    let ap = assoc_pairs(pairs, pairs.len() as int);
    let list = list_of(c, t);
    lemma_assoc_pairs_from(pairs, pairs.len() as int);
    let i = assoc_index(pairs, pairs.len() as int)[j];
    assert(ap[j] == pairs[i]);
    assert(plain_table(pairs));
    assert(plain_value(pairs[i].1));
    let pi = pairs[i];
    assert(match pi.0 {
        ScriptValue::Number(n) => n.whole is Some && n.whole->Some_0 >= 1,
        ScriptValue::String(b) => first_zero(b@) == b@.len(),
        _ => false,
    });
    assert(crate::conversion::assoc_entry_ok(ap[j], list.assoc@[j], false, c.visited@));
    lemma_plain_leaf(pairs[i].1, list.assoc@[j].1);
    lemma_plain_leaf(pairs[i].0, list.assoc@[j].0);
}

/// A plain table converted to a host list, read back into a table, and
/// converted again gives the same list: the same length, the same item at
/// every position, and the same associative writes in the same order. The
/// read-back assumes the host appends each associative write, which holds
/// since no string key of a plain table names a string stored by position.
pub proof fn lemma_round_trip(
    heap1: ScriptHeap,
    t1: int,
    c1: Converted,
    v1: ConversionVariant,
    w: Seq<(ScriptValue, ScriptValue)>,
    heap2: ScriptHeap,
    t2: int,
    c2: Converted,
    v2: ConversionVariant,
)
    requires
        0 <= t1 < heap1.tables@.len(),
        plain_table(heap1.tables@[t1]@),
        converted_ok(heap1, t1, c1, v1, false),
        w.len() == read_back(list_of(c1, t1)).len(),
        w.len() < i64::MAX,
        forall|i: int| 0 <= i < w.len() ==> #[trigger] write_ok(read_back(list_of(c1, t1))[i], i, w[i], false, Seq::empty()),
        0 <= t2 < heap2.tables@.len(),
        heap2.tables@[t2]@ == after_writes(w, w.len() as int),
        converted_ok(heap2, t2, c2, v2, false),
    ensures
        strict_flat(heap2.tables@[t2]@),
        max_whole(heap2.tables@[t2]@, heap2.tables@[t2]@.len() as int) <= MAX_LIST_LEN,
        list_of(c2, t2).items@.len() == list_of(c1, t1).items@.len(),
        forall|p: int| 0 <= p < list_of(c1, t1).items@.len() ==> item_view(#[trigger] list_of(c2, t2).items@[p])
            == item_view(list_of(c1, t1).items@[p]),
        list_of(c2, t2).assoc@.len() == list_of(c1, t1).assoc@.len(),
        forall|j: int| 0 <= j < list_of(c1, t1).assoc@.len() ==> item_view((#[trigger] list_of(c2, t2).assoc@[j]).0)
            == item_view(list_of(c1, t1).assoc@[j].0) && item_view(list_of(c2, t2).assoc@[j].1) == item_view(
            list_of(c1, t1).assoc@[j].1,
        ),
{
    let pairs1 = heap1.tables@[t1]@;
    let l1 = list_of(c1, t1);
    let l2 = list_of(c2, t2);
    let e = read_back(l1);
    let n1 = l1.items@.len() as int;
    let na = l1.assoc@.len() as int;
    let ap1 = assoc_pairs(pairs1, pairs1.len() as int);
    assert(e.len() == n1 + na);
    // The positional writes.
    assert forall|i: int| 0 <= i < n1 implies (#[trigger] w[i].0) is Number && w[i].0->Number_0.whole == Some((i + 1) as i64)
        && read_ok(entry_of(l1.items@[i]), w[i].1, false, Seq::empty()) by {
        assert(e[i] == (entry_of(l1.items@[i]), HostEntry::Null));
        assert(write_ok(e[i], i, w[i], false, Seq::empty()));
    }
    // The associative writes.
    assert forall|i: int| n1 <= i < w.len() implies (#[trigger] w[i].0) is String && w[i].0->String_0@
        == ap1[i - n1].0->String_0@ && !(w[i].1 is Nil) && shallow(entry_of(l1.assoc@[i - n1].1), w[i].1) by {
        let j = i - n1;
        lemma_assoc_plain(heap1, t1, c1, v1, j);
        assert(e[i] == (entry_of(l1.assoc@[j].0), entry_of(l1.assoc@[j].1)));
        assert(write_ok(e[i], i, w[i], false, Seq::empty()));
        lemma_read_back_leaf(l1.assoc@[j].1, w[i].1);
        let k = l1.assoc@[j].0;
        assert(k is Bytes);
    }
    // String keys of the associative writes are distinct.
    lemma_assoc_pairs_from(pairs1, pairs1.len() as int);
    assert forall|i: int, k: int| n1 <= i < w.len() && n1 <= k < w.len() && i != k implies (#[trigger] w[i].0)->String_0@
        != (#[trigger] w[k].0)->String_0@ by {
        let idx = assoc_index(pairs1, pairs1.len() as int);
        let a = idx[i - n1];
        let b = idx[k - n1];
        if i - n1 < k - n1 {
            assert(a < b);
        } else {
            assert(b < a);
        }
        assert(ap1[i - n1] == pairs1[a]);
        assert(ap1[k - n1] == pairs1[b]);
        assert(pairs1[a].0 is String && pairs1[b].0 is String);
    }
    // The table read back: the stored positions, then the associative writes.
    lemma_positions_written(w, n1);
    let base = stored(w, n1);
    lemma_stored_keys(w, n1);
    assert forall|j: int| 0 <= j < base.len() implies (#[trigger] base[j].0) is Number by {
        let i = choose|i: int| 0 <= i < n1 && #[trigger] base[j] == w[i] && !(w[i].1 is Nil);
        assert(w[i].0 is Number);
    }
    lemma_assoc_written(w, n1, w.len() as int, base);
    let rest = w.subrange(n1, w.len() as int);
    let pairs2 = heap2.tables@[t2]@;
    assert(pairs2 == base + rest);
    assert forall|j: int| 0 <= j < rest.len() implies whole_key(#[trigger] rest[j].0) is None by {
        assert(rest[j] == w[n1 + j]);
    }
    assert forall|j: int| 0 <= j < rest.len() implies (#[trigger] rest[j].0) is String by {
        assert(rest[j] == w[n1 + j]);
    }
    // Lengths.
    lemma_max_whole_tail(base, rest, rest.len() as int);
    lemma_max_stored(w, n1);
    assert(l1.items@.len() == max_whole(pairs1, pairs1.len() as int));
    if n1 > 0 {
        crate::conversion::lemma_positions_by_key(heap1, t1, c1, v1, false, n1 - 1);
        lemma_max_attained(pairs1, pairs1.len() as int);
        lemma_items_plain(heap1, t1, c1, v1, n1 - 1);
        let i = choose|i: int| 0 <= i < pairs1.len() && #[trigger] whole_key(pairs1[i].0) == Some(max_whole(pairs1, pairs1.len() as int) as i64);
        assert(!unclaimed(pairs1, pairs1.len() as int, n1 - 1));
        assert(w[n1 - 1].0 is Number);
        lemma_read_back_leaf(l1.items@[n1 - 1], w[n1 - 1].1);
    }
    assert(max_whole(pairs2, pairs2.len() as int) == n1);
    assert(l2.items@.len() == n1);
    // Positions.
    assert forall|p: int| 0 <= p < n1 implies item_view(#[trigger] l2.items@[p]) == item_view(l1.items@[p]) by {
        lemma_items_plain(heap1, t1, c1, v1, p);
        crate::conversion::lemma_positions_by_key(heap2, t2, c2, v2, false, p);
        assert(w[p].0 is Number);
        if unclaimed(pairs1, pairs1.len() as int, p) {
            let item = l1.items@[p];
            assert(entry_of(item) == HostEntry::Null);
            assert(w[p].1 is Nil);
            assert forall|j: int| 0 <= j < pairs2.len() implies #[trigger] whole_key(pairs2[j].0) != Some((p + 1) as i64) by {
                if j < base.len() {
                    let i = choose|i: int| 0 <= i < n1 && #[trigger] base[j] == w[i] && !(w[i].1 is Nil);
                    assert(pairs2[j] == w[i]);
                    assert(i != p);
                } else {
                    assert(pairs2[j] == rest[j - base.len()]);
                }
            }
            assert(unclaimed(pairs2, pairs2.len() as int, p));
        } else {
            lemma_read_back_leaf(l1.items@[p], w[p].1);
            lemma_stored_has(w, n1, p);
            let j = choose|j: int| 0 <= j < stored(w, n1).len() && #[trigger] stored(w, n1)[j] == w[p];
            assert(pairs2[j] == w[p]);
            assert(whole_key(pairs2[j].0) == Some((p + 1) as i64));
            assert(entry_ok(pairs2[j].1, l2.items@[p], false, c2.visited@));
        }
    }
    // The table read back converts without failing.
    assert forall|j: int| 0 <= j < pairs2.len() implies {
        let (k, v) = #[trigger] pairs2[j];
        &&& !(k is Table) && !(v is Table)
        &&& leaf_spec(v) is Ok
        &&& match k {
            ScriptValue::Number(n) => n.whole is Some && n.whole->Some_0 >= 1,
            _ => leaf_spec(k) is Ok,
        }
    } by {
        if j < base.len() {
            let i = choose|i: int| 0 <= i < n1 && #[trigger] base[j] == w[i] && !(w[i].1 is Nil);
            assert(pairs2[j] == w[i]);
            assert(w[i].0 is Number);
            lemma_items_plain(heap1, t1, c1, v1, i);
            if unclaimed(pairs1, pairs1.len() as int, i) {
                assert(entry_of(l1.items@[i]) == HostEntry::Null);
            } else {
                lemma_read_back_leaf(l1.items@[i], w[i].1);
            }
        } else {
            let i = n1 + (j - base.len());
            assert(pairs2[j] == rest[j - base.len()]);
            assert(rest[j - base.len()] == w[i]);
            assert(w[i].0 is String);
            lemma_assoc_plain(heap1, t1, c1, v1, i - n1);
            lemma_read_back_leaf(l1.assoc@[i - n1].1, w[i].1);
            let b = ap1[i - n1].0->String_0;
            assert(first_zero(b@) == b@.len()) by {
                let idx = assoc_index(pairs1, pairs1.len() as int);
                assert(ap1[i - n1] == pairs1[idx[i - n1]]);
            }
        }
    }
    // Associative writes.
    lemma_assoc_pairs_split(base, rest, rest.len() as int);
    assert(rest.subrange(0, rest.len() as int) =~= rest);
    assert(assoc_pairs(pairs2, pairs2.len() as int) == rest);
    assert forall|j: int| 0 <= j < na implies item_view((#[trigger] l2.assoc@[j]).0) == item_view(l1.assoc@[j].0)
        && item_view(l2.assoc@[j].1) == item_view(l1.assoc@[j].1) by {
        lemma_assoc_plain(heap1, t1, c1, v1, j);
        assert(rest[j] == w[n1 + j]);
        assert(crate::conversion::assoc_entry_ok(rest[j], l2.assoc@[j], false, c2.visited@));
        lemma_read_back_leaf(l1.assoc@[j].1, w[n1 + j].1);
        let b = ap1[j].0->String_0;
        assert(w[n1 + j].0->String_0@ == b@);
        assert(first_zero(b@) == b@.len()) by {
            let idx = assoc_index(pairs1, pairs1.len() as int);
            assert(ap1[j] == pairs1[idx[j]]);
        }
    }
}

} // verus!
