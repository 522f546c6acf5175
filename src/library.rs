use vstd::prelude::*;

use crate::exec_limit::{elapsed, ExecLimit};
use crate::text::{owned, str_eq};
use crate::types::{is_list_tag, ValueTag};
use crate::value::{obj_type_name, type_name_for_obj, HostValue};

verus! {

/// The script-side `exec` table: the limiter's figures in milliseconds.
pub struct ExecModule;

impl ExecModule {
    /// The budget in whole milliseconds; a budget too large for the
    /// script's integers is refused.
    pub fn exec_limit(limiter: &ExecLimit) -> (r: Result<Option<i32>, String>)
        ensures
            match limiter.limit {
                None => r == Ok::<Option<i32>, String>(None),
                Some(l) => if l / 1_000_000 <= i32::MAX {
                    r == Ok::<Option<i32>, String>(Some((l / 1_000_000) as i32))
                } else {
                    r is Err && r->Err_0@ == "out of range integral type conversion attempted"@
                },
            },
    {
        match limiter.limit {
            None => Ok(None),
            Some(l) => {
                let ms = l / 1_000_000;
                if ms <= i32::MAX as u64 {
                    Ok(Some(ms as i32))
                } else {
                    Err(owned("out of range integral type conversion attempted"))
                }
            },
        }
    }

    /// Milliseconds since the outermost run started, if one is in progress.
    pub fn exec_time(limiter: &ExecLimit, now: u64) -> (r: Result<Option<i32>, String>)
        ensures
            match limiter.start {
                None => r == Ok::<Option<i32>, String>(None),
                Some(s) => if elapsed(s, now) / 1_000_000 <= i32::MAX {
                    r == Ok::<Option<i32>, String>(Some((elapsed(s, now) / 1_000_000) as i32))
                } else {
                    r is Err && r->Err_0@ == "out of range integral type conversion attempted"@
                },
            },
    {
        match limiter.get_execution_time(now) {
            None => Ok(None),
            Some(ms) => {
                if ms <= i32::MAX as u64 {
                    Ok(Some(ms as i32))
                } else {
                    Err(owned("out of range integral type conversion attempted"))
                }
            },
        }
    }
}

/// The script-side `package` table: its search path.
pub struct PackageModule;

impl PackageModule {
    /// The search path: the Luau-specific setting, else the general one,
    /// else the default.
    pub fn path(luau_path: Option<&str>, lua_path: Option<&str>) -> (r: String)
        ensures
            r@ == match (luau_path, lua_path) {
                (Some(p), _) => p@,
                (None, Some(p)) => p@,
                (None, None) => "?.luau;?.lua"@,
            },
    {
        match (luau_path, lua_path) {
            (Some(p), _) => owned(p),
            (None, Some(p)) => owned(p),
            (None, None) => owned("?.luau;?.lua"),
        }
    }
}

/// The script-side `pointer` table: reading and writing host pointers.
pub struct PointerModule;

impl PointerModule {
    /// Accepts a pointer; anything else is refused with its type's name.
    pub fn expect_pointer(value: &HostValue) -> (r: Result<(), String>)
        ensures
            value.tag == ValueTag::Pointer ==> r is Ok,
            value.tag != ValueTag::Pointer ==> r is Err && r->Err_0@ == "expected pointer, got "@
                + obj_type_name(*value),
    {
        if value.tag == ValueTag::Pointer {
            Ok(())
        } else {
            let mut m = owned("expected pointer, got ");
            m.append(type_name_for_obj(value).as_str());
            Err(m)
        }
    }

    /// Whether `unwrap` reads through the value, or hands it back as it is.
    pub fn unwrap_reads(value: &HostValue) -> (r: bool)
        ensures
            r == (value.tag == ValueTag::Pointer),
    {
        value.tag == ValueTag::Pointer
    }
}

/// The script-side `list` table: list procs and conversions.
pub struct ListModule;

impl ListModule {
    /// List procs need a list.
    pub fn expect_list(value: &HostValue) -> (r: Result<(), String>)
        ensures
            is_list_tag(value.tag) ==> r is Ok,
            !is_list_tag(value.tag) ==> r is Err && r->Err_0@ == "Type is not a list"@,
    {
        if value.is_list() {
            Ok(())
        } else {
            Err(owned("Type is not a list"))
        }
    }

    /// Whether `filter` keeps an entry: its key's typepath starts with the
    /// requested one.
    pub fn filter_keeps(typepath: Option<&str>, prefix: &str) -> (r: bool)
        ensures
            r == match typepath {
                Some(p) => p@.len() >= prefix@.len() && p@.subrange(0, prefix@.len() as int)
                    == prefix@,
                None => false,
            },
    {
        match typepath {
            Some(p) => {
                let n = prefix.unicode_len();
                let m = p.unicode_len();
                if m < n {
                    false
                } else {
                    str_eq(p.substring_char(0, n), prefix)
                }
            },
            None => false,
        }
    }
}

/// The global table's own items.
pub struct GlobalModule(pub i32);

impl GlobalModule {
    /// The state id that scripts read.
    pub fn state_id(&self) -> (r: i32)
        ensures
            r == self.0,
    {
        self.0
    }

    /// The code `loadstring` compiles: an empty chunk is compiled as a blank.
    pub fn loadstring_code(code: &str) -> (r: String)
        ensures
            code@.len() == 0 ==> r@ == " "@,
            code@.len() > 0 ==> r@ == code@,
    {
        if code.unicode_len() == 0 {
            owned(" ")
        } else {
            owned(code)
        }
    }
}

/// The script-side `dm` table: host objects, the caller context and refs.
pub struct DmModule;

impl DmModule {
    /// A script value is a valid ref when it wraps a host object whose
    /// reference still resolves.
    pub fn is_valid_ref(wrapped: Option<HostValue>, resolves: bool) -> (r: bool)
        ensures
            r == (wrapped is Some && resolves),
    {
        wrapped.is_some() && resolves
    }
}

/// The functions made for host procs, by proc name, so that each is made once.
pub struct ProcFnCache<F> {
    pub entries: Vec<(String, F)>,
}

/// The script-side `dm.global_procs` table: a function per global proc.
pub struct GlobalProcsModule;

impl<F> ProcFnCache<F> {
    pub fn new() -> (r: ProcFnCache<F>)
        ensures
            r.entries@.len() == 0,
    {
        ProcFnCache { entries: Vec::new() }
    }

    /// The function made for `proc`, if there is one.
    pub fn get(&self, proc: &str) -> (r: Option<&F>)
        ensures
            match r {
                Some(f) => exists|i: int| 0 <= i < self.entries@.len() && self.entries@[i].0@ == proc@
                    && self.entries@[i].1 == *f,
                None => forall|i: int| 0 <= i < self.entries@.len() ==> self.entries@[i].0@ != proc@,
            },
    {
        let mut i: usize = 0;
        while i < self.entries.len()
            invariant
                i <= self.entries@.len(),
                forall|j: int| 0 <= j < i ==> self.entries@[j].0@ != proc@,
            decreases self.entries@.len() - i,
        {
            if str_eq(self.entries[i].0.as_str(), proc) {
                return Some(&self.entries[i].1);
            }
            i = i + 1;
        }
        None
    }

    /// Records the function made for `proc`.
    pub fn insert(&mut self, proc: &str, f: F)
        ensures
            final(self).entries@.len() == old(self).entries@.len() + 1,
            final(self).entries@.last().0@ == proc@,
            final(self).entries@.last().1 == f,
            forall|i: int| 0 <= i < old(self).entries@.len() ==> final(self).entries@[i] == old(self).entries@[i],
    {
        self.entries.push((owned(proc), f));
    }
}

} // verus!
