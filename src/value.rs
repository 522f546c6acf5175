use vstd::prelude::*;

use crate::text::owned;
use crate::types::{
    dm_type_name, indexable_type, is_indexable_tag, is_list_tag, is_proc_definable_tag,
    is_savefile_var_name, is_string_indexable_tag, is_world_var_name, is_list_proc_name,
    list_proc_name, list_type, proc_definable_type, savefile_var_name, string_indexable_type,
    tag_name, world_var_name, ValueTag,
};

verus! {

/// A host value: its type tag and its data word (a reference id, or the bits
/// of a 32-bit float for numbers).
#[derive(Clone, Copy, Debug, PartialEq, Eq, Structural, Hash)]
pub struct HostValue {
    pub tag: u8,
    pub data: u32,
}

impl HostValue {
    /// The host's null value.
    pub fn null() -> (r: HostValue)
        ensures
            r == (HostValue { tag: ValueTag::Null, data: 0 }),
    {
        HostValue { tag: ValueTag::Null, data: 0 }
    }

    /// The world object.
    pub fn world() -> (r: HostValue)
        ensures
            r == world_value(),
    {
        HostValue { tag: ValueTag::World, data: 0 }
    }

    /// The object holding the global vars.
    pub fn globals() -> (r: HostValue)
        ensures
            r == globals_value(),
    {
        HostValue { tag: ValueTag::World, data: 1 }
    }

    pub fn is_null(&self) -> (r: bool)
        ensures
            r == (self.tag == ValueTag::Null),
    {
        self.tag == ValueTag::Null
    }

    pub fn is_number(&self) -> (r: bool)
        ensures
            r == (self.tag == ValueTag::Number),
    {
        self.tag == ValueTag::Number
    }

    pub fn is_string(&self) -> (r: bool)
        ensures
            r == (self.tag == ValueTag::String),
    {
        self.tag == ValueTag::String
    }

    pub fn is_list(&self) -> (r: bool)
        ensures
            r == is_list_tag(self.tag),
    {
        list_type(self.tag)
    }
}

pub open spec fn world_value() -> HostValue {
    HostValue { tag: ValueTag::World, data: 0 }
}

pub open spec fn globals_value() -> HostValue {
    HostValue { tag: ValueTag::World, data: 1 }
}

/// The key under which the wrapper of a host object is cached: the tag in the
/// high bits and the data word in the low 32 bits.
pub open spec fn cache_key(v: HostValue) -> int {
    v.tag as int * 0x1_0000_0000 + v.data as int
}

/// Returns the cache key of a host value.
pub fn get_cache_id(v: &HostValue) -> (r: u64)
    ensures
        r as int == cache_key(*v),
{
    (v.tag as u64) * 0x1_0000_0000u64 + (v.data as u64)
}

/// Two host values share a cache key exactly when they are the same value.
pub proof fn lemma_cache_key_identifies(a: HostValue, b: HostValue)
    ensures
        cache_key(a) == cache_key(b) <==> a == b,
{
    if cache_key(a) == cache_key(b) {
        assert(a.tag == b.tag && a.data == b.data) by (nonlinear_arith)
            requires
                a.tag as int * 0x1_0000_0000 + a.data as int == b.tag as int * 0x1_0000_0000
                    + b.data as int,
                a.data < 0x1_0000_0000,
                b.data < 0x1_0000_0000,
        ;
    }
}

/// The name of an object's type in messages.
pub open spec fn obj_type_name(v: HostValue) -> Seq<char> {
    if v == globals_value() {
        "global vars object"@
    } else {
        tag_name(v.tag)
    }
}

pub fn type_name_for_obj(obj: &HostValue) -> (r: String)
    ensures
        r@ == obj_type_name(*obj),
{
    if obj.tag == ValueTag::World && obj.data == 1 {
        owned("global vars object")
    } else {
        dm_type_name(obj.tag)
    }
}

pub fn can_index_at_all(value: &HostValue) -> (r: bool)
    ensures
        r == is_indexable_tag(value.tag),
{
    indexable_type(value.tag)
}

pub fn can_index_by_number(value: &HostValue) -> (r: bool)
    ensures
        r == is_list_tag(value.tag),
{
    list_type(value.tag)
}

pub fn can_index_by_string(value: &HostValue) -> (r: bool)
    ensures
        r == is_string_indexable_tag(value.tag),
{
    string_indexable_type(value.tag)
}

pub fn can_index_by_anything(value: &HostValue) -> (r: bool)
    ensures
        r == (value.tag == ValueTag::List),
{
    value.tag == ValueTag::List
}

/// Whether `var` names a var that can be read from `value`. `var` is `None`
/// where the name's bytes are not UTF-8.
pub open spec fn valid_var_index(var: Option<Seq<char>>, value: HostValue) -> bool {
    is_string_indexable_tag(value.tag) || value == globals_value() || match var {
        Some(s) => (value.tag == ValueTag::SaveFile && is_savefile_var_name(s)) || (value
            == world_value() && is_world_var_name(s)),
        None => false,
    }
}

pub fn is_valid_var_index_for_value(var: Option<&str>, value: &HostValue) -> (r: bool)
    ensures
        r == valid_var_index(
            match var {
                Some(s) => Some(s@),
                None => None,
            },
            *value,
        ),
{
    if string_indexable_type(value.tag) || (value.tag == ValueTag::World && value.data == 1) {
        return true;
    }
    match var {
        Some(s) => (value.tag == ValueTag::SaveFile && savefile_var_name(s)) || (value.tag
            == ValueTag::World && value.data == 0 && world_var_name(s)),
        None => false,
    }
}

/// Whether `proc` names a proc that can be called on `value`.
pub open spec fn valid_proc_index(proc: Seq<char>, value: HostValue) -> bool {
    is_proc_definable_tag(value.tag) || value == world_value() || (is_list_tag(value.tag)
        && is_list_proc_name(proc))
}

pub fn is_valid_proc_index_for_value(proc: &str, value: &HostValue) -> (r: bool)
    ensures
        r == valid_proc_index(proc@, *value),
{
    proc_definable_type(value.tag) || (value.tag == ValueTag::World && value.data == 0) || (
    list_type(value.tag) && list_proc_name(proc))
}

/// What indexing `object` with `index` gives: allowed, or the message of why not.
pub open spec fn index_check(object: HostValue, index: HostValue) -> Result<(), Seq<char>> {
    let on = obj_type_name(object);
    let inn = obj_type_name(index);
    if !is_indexable_tag(object.tag) {
        Err("Cannot index objects of type \""@ + on + "\""@)
    } else if object.tag == ValueTag::List {
        Ok(())
    } else if is_string_indexable_tag(object.tag) {
        if index.tag == ValueTag::String {
            Ok(())
        } else if index.tag == ValueTag::Number {
            if is_list_tag(object.tag) {
                Ok(())
            } else {
                Err("Objects of type \""@ + on + "\" can only be indexed by string, got \""@ + inn
                    + "\""@)
            }
        } else {
            Err("Objects of type \""@ + on + "\" can only be indexed by string or number, got \""@
                + inn + "\""@)
        }
    } else if index.tag == ValueTag::Number {
        Ok(())
    } else {
        Err("Objects of type \""@ + on + "\" can only be indexed by number, got \""@ + inn
            + "\""@)
    }
}

/// Checks if `object` can be indexed with `index`: datums and datum-like
/// values only by string, lists of special kinds only by number or string.
pub fn validate_index(object: &HostValue, index: &HostValue) -> (r: Result<(), String>)
    ensures
        match r {
            Ok(()) => index_check(*object, *index) == Ok::<(), Seq<char>>(()),
            Err(e) => index_check(*object, *index) == Err::<(), Seq<char>>(e@),
        },
{
    if !can_index_at_all(object) {
        let mut m = owned("Cannot index objects of type \"");
        m.append(type_name_for_obj(object).as_str());
        m.append("\"");
        Err(m)
    } else if can_index_by_anything(object) {
        Ok(())
    } else if can_index_by_string(object) {
        if index.is_string() {
            Ok(())
        } else if index.is_number() {
            if can_index_by_number(object) {
                Ok(())
            } else {
                let mut m = owned("Objects of type \"");
                m.append(type_name_for_obj(object).as_str());
                m.append("\" can only be indexed by string, got \"");
                m.append(type_name_for_obj(index).as_str());
                m.append("\"");
                Err(m)
            }
        } else {
            let mut m = owned("Objects of type \"");
            m.append(type_name_for_obj(object).as_str());
            m.append("\" can only be indexed by string or number, got \"");
            m.append(type_name_for_obj(index).as_str());
            m.append("\"");
            Err(m)
        }
    } else if index.is_number() {
        Ok(())
    } else {
        let mut m = owned("Objects of type \"");
        m.append(type_name_for_obj(object).as_str());
        m.append("\" can only be indexed by number, got \"");
        m.append(type_name_for_obj(index).as_str());
        m.append("\"");
        Err(m)
    }
}

} // verus!
