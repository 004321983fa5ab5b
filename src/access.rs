//! Who may write to replicas and the signer, and who may change their
//! settings. Principals are handled in their textual form.
use vstd::prelude::*;

verus! {

/// An owner and a list of writers.
#[derive(Clone, Debug)]
pub struct AccessList {
    pub owner: String,
    pub writers: Vec<String>,
}

impl AccessList {
    /// Whether `caller` is one of the writers.
    pub open spec fn writer_spec(self, caller: Seq<char>) -> bool {
        exists|i: int| 0 <= i < self.writers@.len() && (#[trigger] self.writers@[i])@ == caller
    }

    /// Whether the caller may change settings.
    pub fn check_owner(&self, caller: &String) -> (r: bool)
        ensures
            r == (self.owner@ == caller@),
    {
        self.owner == *caller
    }

    /// Whether the caller may write.
    pub fn check_updater(&self, caller: &String) -> (r: bool)
        ensures
            r == self.writer_spec(caller@),
    {
        let mut i: usize = 0;
        while i < self.writers.len()
            invariant
                i <= self.writers@.len(),
                forall|j: int| 0 <= j < i ==> (#[trigger] self.writers@[j])@ != caller@,
            decreases self.writers@.len() - i,
        {
            if self.writers[i] == *caller {
                return true;
            }
            i += 1;
        }
        false
    }
}

} // verus!
