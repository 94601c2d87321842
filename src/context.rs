use vstd::prelude::*;

verus! {

/// The state of one generation pass: the number of the next label.
#[derive(Debug)]
pub struct Context {
    next: u64,
}

impl Context {
    /// The number the next call of `unique_label` returns.
    pub closed spec fn next_label(&self) -> nat {
        self.next as nat
    }

    pub fn empty() -> (r: Self)
        ensures
            r.next_label() == 0,
    {
        Context { next: 0 }
    }

    /// A label that no earlier call on this context has returned.
    pub fn unique_label(&mut self) -> (r: u64)
        requires
            old(self).next_label() < u64::MAX,
        ensures
            r as nat == old(self).next_label(),
            final(self).next_label() == old(self).next_label() + 1,
    {
        let r = self.next;
        self.next = self.next + 1;
        r
    }
}

} // verus!
