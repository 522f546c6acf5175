use vstd::prelude::*;

use crate::text::{owned, str_eq};
use crate::types::is_vars_tag;
use crate::value::{obj_type_name, type_name_for_obj, HostValue};
use crate::types::vars_type;

verus! {

/// Why a host operation was refused while intercepting procs are set.
#[derive(Debug, Clone, PartialEq, Eq)]
pub enum WrapperError {
    /// The named wrapper has to be set for this operation.
    NoWrapper(String),
    /// Direct access that would go around the named wrapper.
    Forbidden { action: String, wrapper: String },
}

pub open spec fn wrapper_error_text(e: WrapperError) -> Seq<char> {
    match e {
        WrapperError::NoWrapper(w) => w@ + " wrapper is not set"@,
        WrapperError::Forbidden { action, wrapper } => action@ + " is forbidden when "@ + wrapper@
            + " wrapper is set"@,
    }
}

impl WrapperError {
    pub fn message(&self) -> (r: String)
        ensures
            r@ == wrapper_error_text(*self),
    {
        match self {
            WrapperError::NoWrapper(w) => {
                let mut s = w.clone();
                s.append(" wrapper is not set");
                s
            },
            WrapperError::Forbidden { action, wrapper } => {
                let mut s = action.clone();
                s.append(" is forbidden when ");
                s.append(wrapper.as_str());
                s.append(" wrapper is set");
                s
            },
        }
    }
}

/// The proc name that a wrapper setting stands for: none for an empty name,
/// and a leading "/proc/" left off.
pub open spec fn wrapper_name(s: Seq<char>) -> Option<Seq<char>> {
    if s.len() == 0 {
        None
    } else if s.len() >= 6 && s.subrange(0, 6) == "/proc/"@ {
        Some(s.subrange(6, s.len() as int))
    } else {
        Some(s)
    }
}

pub open spec fn opt_view(o: Option<String>) -> Option<Seq<char>> {
    match o {
        Some(s) => Some(s@),
        None => None,
    }
}

/// Reads the proc name out of a wrapper setting.
pub fn normalize_wrapper(new_wrapper: &str) -> (r: Option<String>)
    ensures
        opt_view(r) == wrapper_name(new_wrapper@),
{
    let n = new_wrapper.unicode_len();
    if n == 0 {
        return None;
    }
    if n >= 6 {
        let head = new_wrapper.substring_char(0, 6);
        if str_eq(head, "/proc/") {
            return Some(owned(new_wrapper.substring_char(6, n)));
        }
    }
    Some(owned(new_wrapper))
}

/// The host procs that, when set, intercept each kind of host operation.
pub struct Wrappers {
    pub global_call: Option<String>,
    pub object_call: Option<String>,
    pub var_get: Option<String>,
    pub var_set: Option<String>,
    pub new: Option<String>,
    pub print: Option<String>,
}

impl Wrappers {
    pub fn new() -> (r: Wrappers)
        ensures
            r.global_call is None,
            r.object_call is None,
            r.var_get is None,
            r.var_set is None,
            r.new is None,
            r.print is None,
    {
        Wrappers {
            global_call: None,
            object_call: None,
            var_get: None,
            var_set: None,
            new: None,
            print: None,
        }
    }

    pub fn set_global_call_wrapper(&mut self, new_wrapper: &str)
        ensures
            opt_view(final(self).global_call) == wrapper_name(new_wrapper@),
            final(self).object_call == old(self).object_call,
            final(self).var_get == old(self).var_get,
            final(self).var_set == old(self).var_set,
            final(self).new == old(self).new,
            final(self).print == old(self).print,
    {
        self.global_call = normalize_wrapper(new_wrapper);
    }

    pub fn set_object_call_wrapper(&mut self, new_wrapper: &str)
        ensures
            opt_view(final(self).object_call) == wrapper_name(new_wrapper@),
            final(self).global_call == old(self).global_call,
            final(self).var_get == old(self).var_get,
            final(self).var_set == old(self).var_set,
            final(self).new == old(self).new,
            final(self).print == old(self).print,
    {
        self.object_call = normalize_wrapper(new_wrapper);
    }

    pub fn set_var_get_wrapper(&mut self, new_wrapper: &str)
        ensures
            opt_view(final(self).var_get) == wrapper_name(new_wrapper@),
            final(self).global_call == old(self).global_call,
            final(self).object_call == old(self).object_call,
            final(self).var_set == old(self).var_set,
            final(self).new == old(self).new,
            final(self).print == old(self).print,
    {
        self.var_get = normalize_wrapper(new_wrapper);
    }

    pub fn set_var_set_wrapper(&mut self, new_wrapper: &str)
        ensures
            opt_view(final(self).var_set) == wrapper_name(new_wrapper@),
            final(self).global_call == old(self).global_call,
            final(self).object_call == old(self).object_call,
            final(self).var_get == old(self).var_get,
            final(self).new == old(self).new,
            final(self).print == old(self).print,
    {
        self.var_set = normalize_wrapper(new_wrapper);
    }

    pub fn set_new_wrapper(&mut self, new_wrapper: &str)
        ensures
            opt_view(final(self).new) == wrapper_name(new_wrapper@),
            final(self).global_call == old(self).global_call,
            final(self).object_call == old(self).object_call,
            final(self).var_get == old(self).var_get,
            final(self).var_set == old(self).var_set,
            final(self).print == old(self).print,
    {
        self.new = normalize_wrapper(new_wrapper);
    }

    pub fn set_print_wrapper(&mut self, new_wrapper: &str)
        ensures
            opt_view(final(self).print) == wrapper_name(new_wrapper@),
            final(self).global_call == old(self).global_call,
            final(self).object_call == old(self).object_call,
            final(self).var_get == old(self).var_get,
            final(self).var_set == old(self).var_set,
            final(self).new == old(self).new,
    {
        self.print = normalize_wrapper(new_wrapper);
    }

    /// Reading a list entry directly: refused for an associative read of a
    /// list of vars while a var-get wrapper is set.
    pub fn check_read_list_index(&self, target: &HostValue, index_is_number: bool) -> (r: Result<
        (),
        WrapperError,
    >)
        ensures
            (is_vars_tag(target.tag) && self.var_get is Some && !index_is_number) <==> r is Err,
            match r {
                Err(e) => wrapper_error_text(e) == "direct reading of "@ + obj_type_name(*target)
                    + " assoc values is forbidden when var get wrapper is set"@,
                Ok(()) => true,
            },
    {
        if vars_type(target.tag) && self.var_get.is_some() && !index_is_number {
            let mut action = owned("direct reading of ");
            action.append(type_name_for_obj(target).as_str());
            action.append(" assoc values");
            let e = WrapperError::Forbidden { action, wrapper: owned("var get") };
            proof {
                reveal_strlit("var get");
                reveal_strlit(" is forbidden when ");
                reveal_strlit(" wrapper is set");
                reveal_strlit(" assoc values");
                reveal_strlit(" assoc values is forbidden when var get wrapper is set");
                assert(wrapper_error_text(e) =~= "direct reading of "@ + obj_type_name(*target)
                    + " assoc values is forbidden when var get wrapper is set"@);
            }
            Err(e)
        } else {
            Ok(())
        }
    }

    /// Writing a list entry directly: refused for a list of vars while a
    /// var-set wrapper is set.
    pub fn check_write_list_index(&self, target: &HostValue) -> (r: Result<(), WrapperError>)
        ensures
            (is_vars_tag(target.tag) && self.var_set is Some) <==> r is Err,
            match r {
                Err(e) => wrapper_error_text(e) == "direct modification of "@ + obj_type_name(
                    *target,
                ) + " lists is forbidden when var set wrapper is set"@,
                Ok(()) => true,
            },
    {
        if vars_type(target.tag) && self.var_set.is_some() {
            let mut action = owned("direct modification of ");
            action.append(type_name_for_obj(target).as_str());
            action.append(" lists");
            let e = WrapperError::Forbidden { action, wrapper: owned("var set") };
            proof {
                reveal_strlit("var set");
                reveal_strlit(" is forbidden when ");
                reveal_strlit(" wrapper is set");
                reveal_strlit(" lists");
                reveal_strlit(" lists is forbidden when var set wrapper is set");
                assert(wrapper_error_text(e) =~= "direct modification of "@ + obj_type_name(*target)
                    + " lists is forbidden when var set wrapper is set"@);
            }
            Err(e)
        } else {
            Ok(())
        }
    }

    /// The proc that prints for scripts; printing needs one.
    pub fn print_target(&self) -> (r: Result<String, WrapperError>)
        ensures
            match self.print {
                Some(p) => r is Ok && r->Ok_0@ == p@,
                None => r is Err && wrapper_error_text(r->Err_0) == "print wrapper is not set"@,
            },
    {
        match &self.print {
            Some(p) => Ok(p.clone()),
            None => {
                let e = WrapperError::NoWrapper(owned("print"));
                proof {
                    reveal_strlit("print");
                    reveal_strlit(" wrapper is not set");
                    reveal_strlit("print wrapper is not set");
                    assert(wrapper_error_text(e) =~= "print wrapper is not set"@);
                }
                Err(e)
            },
        }
    }
}

} // verus!
