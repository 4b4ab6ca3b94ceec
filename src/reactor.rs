use vstd::prelude::*;

verus! {

/// The most connections that are open at once.
pub const MAX_CONNECTIONS: usize = 1024;

/// The identity under which the listening socket is registered.
pub const SERVER_IDENT: usize = 0;

/// The reactor's bookkeeping of connections: how many are open and the
/// identity that the next one gets.
pub struct Reactor {
    pub live: usize,
    pub next_ident: usize,
}

impl Reactor {
    pub open spec fn wf(&self) -> bool {
        self.live <= MAX_CONNECTIONS && SERVER_IDENT < self.next_ident
    }

    /// No connection yet; identities start after the listener's.
    pub fn new() -> (r: Reactor)
        ensures
            r.wf(),
            r.live == 0,
            r.next_ident == SERVER_IDENT + 1,
    {
        Reactor { live: 0, next_ident: SERVER_IDENT + 1 }
    }

    /// Decides on a freshly accepted socket: under the ceiling it is kept
    /// under a new identity, distinct from the listener's and from every
    /// one given before; at the ceiling (or when identities run out) it is
    /// to be closed at once, and nothing changes.
    pub fn on_accept(&mut self) -> (r: Option<usize>)
        requires
            old(self).wf(),
        ensures
            final(self).wf(),
            old(self).live < MAX_CONNECTIONS && old(self).next_ident < usize::MAX ==> {
                &&& r == Some(old(self).next_ident)
                &&& final(self).live == old(self).live + 1
                &&& final(self).next_ident == old(self).next_ident + 1
            },
            !(old(self).live < MAX_CONNECTIONS && old(self).next_ident < usize::MAX) ==> {
                &&& r is None
                &&& *final(self) == *old(self)
            },
    {
        if self.live < MAX_CONNECTIONS && self.next_ident < usize::MAX {
            let ident = self.next_ident;
            self.next_ident = self.next_ident + 1;
            self.live = self.live + 1;
            Some(ident)
        } else {
            None
        }
    }

    /// Records that a connection ended.
    pub fn on_close(&mut self)
        requires
            old(self).wf(),
        ensures
            final(self).wf(),
            final(self).next_ident == old(self).next_ident,
            final(self).live == if old(self).live > 0 { old(self).live - 1 } else { 0 },
    {
        if self.live > 0 {
            self.live = self.live - 1;
        }
    }
}

} // verus!
