use vstd::prelude::*;

use std::collections::HashMap;

use crate::value::{cache_key, get_cache_id, lemma_cache_key_identifies, HostValue};

verus! {

/// The wrappers handed to scripts for host objects, keyed by the host
/// object's identity, so that two wraps of one object are one handle.
pub struct UserdataCache<W> {
    pub entries: HashMap<u64, W>,
}

impl<W> UserdataCache<W> {
    pub open spec fn view(&self) -> Map<u64, W> {
        self.entries@
    }

    pub fn new() -> (r: UserdataCache<W>)
        ensures
            r.view() == Map::<u64, W>::empty(),
    {
        UserdataCache { entries: HashMap::new() }
    }

    /// The cached wrapper of a host object, if there is one.
    pub fn get(&self, value: &HostValue) -> (r: Option<&W>)
        ensures
            match r {
                Some(w) => self.view().contains_key(cache_key(*value) as u64) && *w == self.view()[
                    cache_key(*value) as u64],
                None => !self.view().contains_key(cache_key(*value) as u64),
            },
    {
        let id = get_cache_id(value);
        self.entries.get(&id)
    }

    /// Caches a new wrapper for a host object that has none.
    pub fn insert(&mut self, value: &HostValue, wrapper: W)
        ensures
            final(self).view() == old(self).view().insert(cache_key(*value) as u64, wrapper),
    {
        let id = get_cache_id(value);
        self.entries.insert(id, wrapper);
    }

    /// Removes the wrapper of a host object and hands it back, so that the
    /// caller can detach it before the object's host lifetime ends.
    pub fn drop_cached_userdata(&mut self, value: &HostValue) -> (r: Option<W>)
        ensures
            final(self).view() == old(self).view().remove(cache_key(*value) as u64),
            match r {
                Some(w) => old(self).view().contains_key(cache_key(*value) as u64) && w == old(
                    self,
                ).view()[cache_key(*value) as u64],
                None => !old(self).view().contains_key(cache_key(*value) as u64),
            },
    {
        let id = get_cache_id(value);
        self.entries.remove(&id)
    }
}

/// Two host values with the same tag and data word reach the same cached
/// wrapper; once the wrapper of a value is dropped, none of them reaches one.
pub proof fn lemma_cache_identity<W>(
    c: UserdataCache<W>,
    a: HostValue,
    b: HostValue,
    w: W,
)
    ensures
        a.tag == b.tag && a.data == b.data ==> c.view().insert(cache_key(a) as u64, w)[cache_key(
            b,
        ) as u64] == w,
        a.tag == b.tag && a.data == b.data ==> !c.view().remove(cache_key(a) as u64).contains_key(
            cache_key(b) as u64,
        ),
        !(a.tag == b.tag && a.data == b.data) ==> cache_key(a) as u64 != cache_key(b) as u64,
{
    lemma_cache_key_identifies(a, b);
    assert(0 <= cache_key(a) < 0x1_0000_0000_0000_0000) by (nonlinear_arith)
        requires
            cache_key(a) == a.tag as int * 0x1_0000_0000 + a.data as int,
            a.tag < 256,
            a.data < 0x1_0000_0000,
    ;
    assert(0 <= cache_key(b) < 0x1_0000_0000_0000_0000) by (nonlinear_arith)
        requires
            cache_key(b) == b.tag as int * 0x1_0000_0000 + b.data as int,
            b.tag < 256,
            b.data < 0x1_0000_0000,
    ;
}

} // verus!
