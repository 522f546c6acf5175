use vstd::prelude::*;

use crate::value::HostValue;

verus! {

/// The caller-context values ("usr") that scripts see: the value the host set
/// last, and one saved value for each run in progress.
pub struct UsrStack {
    pub usr: Option<HostValue>,
    pub stack: Vec<Option<HostValue>>,
}

/// The last value present in a stack of saved values.
pub open spec fn last_present(s: Seq<Option<HostValue>>) -> Option<HostValue>
    decreases s.len(),
{
    if s.len() == 0 {
        None
    } else {
        match s.last() {
            Some(v) => Some(v),
            None => last_present(s.drop_last()),
        }
    }
}

impl UsrStack {
    pub fn new() -> (r: UsrStack)
        ensures
            r.usr is None,
            r.stack@.len() == 0,
    {
        UsrStack { usr: None, stack: Vec::new() }
    }

    /// Sets the value that the next run will see.
    pub fn set_usr(&mut self, new_usr: HostValue)
        ensures
            final(self).usr == Some(new_usr),
            final(self).stack@ == old(self).stack@,
    {
        self.usr = Some(new_usr);
    }

    /// Saves the current value for a run that starts; a nested run sees it
    /// only through the stack.
    pub fn push_usr(&mut self)
        ensures
            final(self).usr is None,
            final(self).stack@ == old(self).stack@.push(old(self).usr),
    {
        let u = self.usr;
        self.usr = None;
        self.stack.push(u);
    }

    /// Drops the value saved by the run that ends.
    pub fn pop_usr(&mut self)
        ensures
            final(self).usr == old(self).usr,
            old(self).stack@.len() > 0 ==> final(self).stack@ == old(self).stack@.drop_last(),
            old(self).stack@.len() == 0 ==> final(self).stack@ == old(self).stack@,
    {
        let _ = self.stack.pop();
    }

    /// The value that the running script sees: the innermost one saved.
    pub fn peek_usr(&self) -> (r: Option<HostValue>)
        ensures
            r == last_present(self.stack@),
    {
        let mut i: usize = self.stack.len();
        assert(self.stack@.subrange(0, i as int) =~= self.stack@);
        while i > 0
            invariant
                i <= self.stack@.len(),
                last_present(self.stack@) == last_present(self.stack@.subrange(0, i as int)),
            decreases i,
        {
            let ghost s = self.stack@.subrange(0, i as int);
            assert(s.drop_last() =~= self.stack@.subrange(0, i - 1));
            if let Some(v) = self.stack[i - 1] {
                return Some(v);
            }
            i = i - 1;
        }
        assert(self.stack@.subrange(0, 0) =~= Seq::<Option<HostValue>>::empty());
        None
    }
}

} // verus!
