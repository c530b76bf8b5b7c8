use vstd::prelude::*;

verus! {

/// An application-chosen identifier of one registration.
#[derive(Clone, Copy, Debug, PartialEq, Eq, Structural, Hash)]
pub struct Token(pub usize);

/// The wait-identity of a source: a descriptor, a handle, or an identity
/// that the dispatcher handed out for one of its auxiliary sources.
#[derive(Clone, Copy, Debug, PartialEq, Eq, Structural, Hash)]
pub struct SourceId(pub u64);

/// The readiness kinds a registration cares about, or that an event reports.
#[derive(Clone, Copy, Debug, PartialEq, Eq, Structural)]
pub struct Interest {
    pub readable: bool,
    pub writable: bool,
}

/// Whether a ready source is reported on every wait or once per transition.
#[derive(Clone, Copy, Debug, PartialEq, Eq, Structural)]
pub enum TriggerMode {
    Level,
    Edge,
}

impl Interest {
    pub fn readable() -> (r: Interest)
        ensures
            r.readable && !r.writable,
    {
        Interest { readable: true, writable: false }
    }

    pub fn writable() -> (r: Interest)
        ensures
            !r.readable && r.writable,
    {
        Interest { readable: false, writable: true }
    }

    pub fn empty() -> (r: Interest)
        ensures
            !r.readable && !r.writable,
    {
        Interest { readable: false, writable: false }
    }

    pub open spec fn spec_is_empty(self) -> bool {
        !self.readable && !self.writable
    }

    pub fn is_empty(&self) -> (r: bool)
        ensures
            r == self.spec_is_empty(),
    {
        !self.readable && !self.writable
    }

    pub open spec fn spec_union(self, o: Interest) -> Interest {
        Interest { readable: self.readable || o.readable, writable: self.writable || o.writable }
    }

    /// The kinds in either set.
    pub fn union(&self, o: &Interest) -> (r: Interest)
        ensures
            r == self.spec_union(*o),
    {
        Interest { readable: self.readable || o.readable, writable: self.writable || o.writable }
    }

    pub open spec fn spec_intersect(self, o: Interest) -> Interest {
        Interest { readable: self.readable && o.readable, writable: self.writable && o.writable }
    }

    /// The kinds in both sets.
    pub fn intersect(&self, o: &Interest) -> (r: Interest)
        ensures
            r == self.spec_intersect(*o),
    {
        Interest { readable: self.readable && o.readable, writable: self.writable && o.writable }
    }

    pub open spec fn spec_contains(self, o: Interest) -> bool {
        (o.readable ==> self.readable) && (o.writable ==> self.writable)
    }

    /// Whether every kind of `o` is in this set.
    pub fn contains(&self, o: &Interest) -> (r: bool)
        ensures
            r == self.spec_contains(*o),
    {
        (!o.readable || self.readable) && (!o.writable || self.writable)
    }
}

} // verus!
