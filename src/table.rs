use std::collections::HashMap;
use vstd::prelude::*;

use crate::error::{DispatchError, IoKind};
use crate::types::{Interest, SourceId, Token, TriggerMode};

verus! {

broadcast use vstd::std_specs::hash::group_hash_axioms;

/// One entry of the dispatcher's table: which source is registered under
/// which token, for which readiness and in which mode.
#[derive(Clone, Copy, Debug, PartialEq, Eq, Structural)]
pub struct Registration {
    pub token: Token,
    pub source: SourceId,
    pub interest: Interest,
    pub mode: TriggerMode,
}

/// A change that the application asks of the table.
#[derive(Clone, Copy, Debug, PartialEq, Eq, Structural)]
pub enum Change {
    Register(Registration),
    Reregister(Registration),
    Deregister(SourceId),
}

/// The abstract table: registrations keyed by their token.
pub type TableModel = Map<usize, Registration>;

pub open spec fn source_registered(m: TableModel, s: SourceId) -> bool {
    exists|t: usize| m.contains_key(t) && #[trigger] m[t].source == s
}

/// Whether a change is allowed by the state machine of registrations, and
/// if not, which error it gets.
pub open spec fn admission(m: TableModel, c: Change) -> Result<(), DispatchError> {
    match c {
        Change::Register(r) => {
            if m.contains_key(r.token.0) {
                Err(DispatchError::DuplicateToken)
            } else {
                Ok(())
            }
        },
        Change::Reregister(r) => {
            if m.contains_key(r.token.0) && m[r.token.0].source == r.source {
                Ok(())
            } else {
                Err(DispatchError::InvalidToken)
            }
        },
        Change::Deregister(s) => {
            if source_registered(m, s) {
                Ok(())
            } else {
                Err(DispatchError::InvalidToken)
            }
        },
    }
}

/// The table after an admitted change.
pub open spec fn changed(m: TableModel, c: Change) -> TableModel {
    match c {
        Change::Register(r) => m.insert(r.token.0, r),
        Change::Reregister(r) => m.insert(r.token.0, r),
        Change::Deregister(s) => m.remove(choose|t: usize| m.contains_key(t) && m[t].source == s),
    }
}

/// The result of a change, given what the poller answered when it was
/// consulted (it is consulted only on admitted changes). A registration of
/// a source that is already registered under another token is refused as
/// the poller refuses it, so that each source keeps one token.
pub open spec fn outcome(m: TableModel, c: Change, backend: Result<(), IoKind>) -> Result<
    (),
    DispatchError,
> {
    match admission(m, c) {
        Err(e) => Err(e),
        Ok(()) => match backend {
            Err(k) => Err(DispatchError::BackendRejected(k)),
            Ok(()) => match c {
                Change::Register(r) => if source_registered(m, r.source) {
                    Err(DispatchError::BackendRejected(IoKind::AlreadyExists))
                } else {
                    Ok(())
                },
                _ => Ok(()),
            },
        },
    }
}

/// The table after a change: changed if it succeeded, as it was otherwise.
pub open spec fn next_table(m: TableModel, c: Change, backend: Result<(), IoKind>) -> TableModel {
    if outcome(m, c, backend) is Ok {
        changed(m, c)
    } else {
        m
    }
}

/// The token a change affects when it succeeds.
pub open spec fn change_token(m: TableModel, c: Change) -> usize {
    match c {
        Change::Register(r) => r.token.0,
        Change::Reregister(r) => r.token.0,
        Change::Deregister(s) => choose|t: usize| m.contains_key(t) && m[t].source == s,
    }
}

/// The armed tokens after a change: a successful register or reregister
/// arms its token, a successful deregister drops it.
pub open spec fn next_armed(
    m: TableModel,
    armed: Set<usize>,
    c: Change,
    backend: Result<(), IoKind>,
) -> Set<usize> {
    if outcome(m, c, backend) is Ok {
        match c {
            Change::Deregister(_) => armed.remove(change_token(m, c)),
            _ => armed.insert(change_token(m, c)),
        }
    } else {
        armed
    }
}

/// A sequence of changes, each with what the poller answered to it.
pub type History = Seq<(Change, Result<(), IoKind>)>;

/// The table after a sequence of changes.
pub open spec fn run(m: TableModel, h: History) -> TableModel
    decreases h.len(),
{
    if h.len() == 0 {
        m
    } else {
        next_table(run(m, h.drop_last()), h.last().0, h.last().1)
    }
}

/// The table just before the change at index `i`, starting empty.
pub open spec fn before(h: History, i: int) -> TableModel {
    run(Map::empty(), h.take(i))
}

pub open spec fn accepted(h: History, i: int) -> bool {
    outcome(before(h, i), h[i].0, h[i].1) is Ok
}

/// Whether the change at index `i` succeeded in registering or
/// re-registering token `t`.
pub open spec fn sets(h: History, i: int, t: usize) -> bool {
    &&& accepted(h, i)
    &&& match h[i].0 {
        Change::Register(r) => r.token.0 == t,
        Change::Reregister(r) => r.token.0 == t,
        Change::Deregister(_) => false,
    }
}

/// Whether the change at index `i` succeeded in removing token `t`.
pub open spec fn removes(h: History, i: int, t: usize) -> bool {
    &&& accepted(h, i)
    &&& h[i].0 is Deregister
    &&& change_token(before(h, i), h[i].0) == t
}

pub open spec fn registration_of(c: Change) -> Registration {
    match c {
        Change::Register(r) => r,
        Change::Reregister(r) => r,
        Change::Deregister(_) => arbitrary(),
    }
}

proof fn lemma_prefix_agrees(h: History, i: int)
    requires
        h.len() > 0,
        0 <= i < h.len() - 1,
    ensures
        before(h, i) == before(h.drop_last(), i),
        h[i] == h.drop_last()[i],
        accepted(h, i) == accepted(h.drop_last(), i),
        forall|t: usize| sets(h, i, t) == sets(h.drop_last(), i, t),
        forall|t: usize| removes(h, i, t) == removes(h.drop_last(), i, t),
{
    assert(h.take(i) =~= h.drop_last().take(i));
}

/// A change that neither sets nor removes `t` leaves the entry of `t` as it was.
proof fn lemma_untouched(m: TableModel, c: Change, b: Result<(), IoKind>, t: usize)
    requires
        !(outcome(m, c, b) is Ok && (match c {
            Change::Register(r) => r.token.0 == t,
            Change::Reregister(r) => r.token.0 == t,
            Change::Deregister(_) => change_token(m, c) == t,
        })),
    ensures
        next_table(m, c, b).contains_key(t) == m.contains_key(t),
        m.contains_key(t) ==> next_table(m, c, b)[t] == m[t],
{
}

/// After any sequence of changes on a table that starts empty, a token is
/// registered exactly when the last change that succeeded on it registered
/// or re-registered it, and it then holds that change's registration.
/// Changes that were refused, by the table or by the poller, count for
/// nothing.
pub proof fn lemma_table_holds_latest(h: History, t: usize)
    ensures
        run(Map::empty(), h).contains_key(t) ==> exists|i: int|
            0 <= i < h.len() && #[trigger] sets(h, i, t) && run(Map::empty(), h)[t]
                == registration_of(h[i].0) && forall|j: int|
                i < j < h.len() ==> !sets(h, j, t) && !removes(h, j, t),
        !run(Map::empty(), h).contains_key(t) ==> forall|i: int|
            0 <= i < h.len() && #[trigger] sets(h, i, t) ==> exists|j: int|
                i < j < h.len() && removes(h, j, t),
    decreases h.len(),
{
    if h.len() == 0 {
        return;
    }
    let p = h.drop_last();
    let n = h.len() - 1;
    lemma_table_holds_latest(p, t);
    assert(h.take(n) =~= p);
    assert(before(h, n) == run(Map::empty(), p));
    assert forall|i: int| 0 <= i < n implies #[trigger] sets(h, i, t) == sets(p, i, t) && removes(h, i, t) == removes(p, i, t) by {
        lemma_prefix_agrees(h, i);
    }
    let m = run(Map::empty(), p);
    let c = h[n].0;
    let b = h[n].1;
    if sets(h, n, t) {
        assert(run(Map::empty(), h)[t] == registration_of(h[n].0));
    } else if removes(h, n, t) {
        assert(!run(Map::empty(), h).contains_key(t));
    } else {
        lemma_untouched(m, c, b, t);
        if run(Map::empty(), h).contains_key(t) {
            let i = choose|i: int|
                0 <= i < p.len() && #[trigger] sets(p, i, t) && run(Map::empty(), p)[t]
                    == registration_of(p[i].0) && forall|j: int|
                    i < j < p.len() ==> !sets(p, j, t) && !removes(p, j, t);
            lemma_prefix_agrees(h, i);
            assert(sets(h, i, t));
        } else {
            assert forall|i: int| 0 <= i < h.len() && #[trigger] sets(h, i, t) implies exists|j: int|
                i < j < h.len() && removes(h, j, t) by {
                lemma_prefix_agrees(h, i);
                let j = choose|j: int| i < j < p.len() && removes(p, j, t);
                lemma_prefix_agrees(h, j);
                assert(removes(h, j, t));
            }
        }
    }
}

/// Deregistering one source leaves every registration of another source
/// as it was, such as that of a duplicate handle to the same device.
pub proof fn lemma_deregister_keeps_others(
    m: TableModel,
    gone: SourceId,
    b: Result<(), IoKind>,
    t: usize,
)
    requires
        m.contains_key(t),
        m[t].source != gone,
    ensures
        next_table(m, Change::Deregister(gone), b).contains_key(t),
        next_table(m, Change::Deregister(gone), b)[t] == m[t],
{
}

#[derive(Clone, Copy, Debug)]
struct Slot {
    reg: Registration,
    armed: bool,
}

/// The dispatcher's registration table.
///
/// Besides the registrations it keeps, for each token, whether the source
/// may be reported by the next wait: an edge-triggered source is disarmed
/// once reported and armed again by `reregister`.
pub struct RegistrationTable {
    slots: HashMap<usize, Slot>,
    owners: HashMap<u64, usize>,
}

impl View for RegistrationTable {
    type V = TableModel;

    closed spec fn view(&self) -> TableModel {
        Map::new(|t: usize| self.slots@.contains_key(t), |t: usize| self.slots@[t].reg)
    }
}

impl RegistrationTable {
    /// The tokens whose source may be reported by the next wait.
    pub closed spec fn armed(&self) -> Set<usize> {
        Set::new(|t: usize| self.slots@.contains_key(t) && self.slots@[t].armed)
    }

    pub closed spec fn wf(&self) -> bool {
        &&& forall|t: usize| #[trigger]
            self.slots@.contains_key(t) ==> {
                &&& self.slots@[t].reg.token.0 == t
                &&& self.owners@.contains_key(self.slots@[t].reg.source.0)
                &&& self.owners@[self.slots@[t].reg.source.0] == t
            }
        &&& forall|s: u64| #[trigger]
            self.owners@.contains_key(s) ==> {
                &&& self.slots@.contains_key(self.owners@[s])
                &&& self.slots@[self.owners@[s]].reg.source.0 == s
            }
    }

    pub fn new() -> (r: RegistrationTable)
        ensures
            r.wf(),
            r@ == Map::<usize, Registration>::empty(),
            r.armed() == Set::<usize>::empty(),
    {
        let r = RegistrationTable { slots: HashMap::new(), owners: HashMap::new() };
        assert(r@ =~= Map::<usize, Registration>::empty());
        assert(r.armed() =~= Set::<usize>::empty());
        r
    }

    /// A source is registered under one token at most.
    pub proof fn lemma_one_token_per_source(&self, a: usize, b: usize)
        requires
            self.wf(),
            self@.contains_key(a),
            self@.contains_key(b),
            self@[a].source == self@[b].source,
        ensures
            a == b,
    {
        assert(self.slots@.contains_key(a) && self.slots@.contains_key(b));
    }

    /// The token under which a source is registered, if it is.
    pub fn token_of(&self, s: SourceId) -> (r: Option<Token>)
        requires
            self.wf(),
        ensures
            r is None <==> !source_registered(self@, s),
            r matches Some(t) ==> self@.contains_key(t.0) && self@[t.0].source == s,
    {
        match self.owners.get(&s.0) {
            Some(t) => {
                let t = *t;
                assert(self@.contains_key(t) && self@[t].source == s);
                Some(Token(t))
            },
            None => {
                proof {
                    if source_registered(self@, s) {
                        let t = choose|t: usize| self@.contains_key(t) && #[trigger] self@[t].source == s;
                        assert(self.slots@.contains_key(t));
                    }
                }
                None
            },
        }
    }

    /// The registration under a token, if any.
    pub fn get(&self, t: Token) -> (r: Option<Registration>)
        requires
            self.wf(),
        ensures
            r == self@.get(t.0),
    {
        match self.slots.get(&t.0) {
            Some(slot) => Some(slot.reg),
            None => None,
        }
    }

    /// Whether the source under a token may be reported by the next wait.
    pub fn is_armed(&self, t: Token) -> (r: bool)
        requires
            self.wf(),
        ensures
            r == self.armed().contains(t.0),
    {
        match self.slots.get(&t.0) {
            Some(slot) => slot.armed,
            None => false,
        }
    }

    /// Marks a registered token as reported, so that the next wait does not
    /// report it again until it is re-registered.
    pub fn disarm(&mut self, t: Token)
        requires
            old(self).wf(),
        ensures
            final(self).wf(),
            final(self)@ == old(self)@,
            final(self).armed() == old(self).armed().remove(t.0),
    {
        let ghost old_self = *self;
        let slot = match self.slots.get(&t.0) {
            Some(slot) => *slot,
            None => {
                assert(old_self.armed() =~= old_self.armed().remove(t.0));
                return;
            },
        };
        self.slots.insert(t.0, Slot { reg: slot.reg, armed: false });
        proof {
            assert(self@ =~= old_self@);
            assert(self.armed() =~= old_self.armed().remove(t.0));
            assert forall|s: u64| #[trigger]
                self.owners@.contains_key(s) implies {
                &&& self.slots@.contains_key(self.owners@[s])
                &&& self.slots@[self.owners@[s]].reg.source.0 == s
            } by {
                assert(old_self.slots@.contains_key(old_self.owners@[s]));
            }
        }
    }

    /// Whether a change is allowed now, and if not, the error it gets.
    /// The poller is to be consulted only when this returns `Ok`.
    pub fn check(&self, c: &Change) -> (r: Result<(), DispatchError>)
        requires
            self.wf(),
        ensures
            r == admission(self@, *c),
    {
        match c {
            Change::Register(reg) => {
                if self.slots.contains_key(&reg.token.0) {
                    Err(DispatchError::DuplicateToken)
                } else {
                    Ok(())
                }
            },
            Change::Reregister(reg) => {
                match self.slots.get(&reg.token.0) {
                    Some(slot) => {
                        if slot.reg.source.0 == reg.source.0 {
                            Ok(())
                        } else {
                            Err(DispatchError::InvalidToken)
                        }
                    },
                    None => Err(DispatchError::InvalidToken),
                }
            },
            Change::Deregister(s) => {
                if self.token_of(*s).is_some() {
                    Ok(())
                } else {
                    Err(DispatchError::InvalidToken)
                }
            },
        }
    }
    /// Applies a change, given what the poller answered to it. The change
    /// takes effect only if it is admitted and the poller accepted it;
    /// otherwise the table is left exactly as it was.
    pub fn apply(&mut self, c: &Change, backend: Result<(), IoKind>) -> (r: Result<(), DispatchError>)
        requires
            old(self).wf(),
        ensures
            final(self).wf(),
            r == outcome(old(self)@, *c, backend),
            final(self)@ == next_table(old(self)@, *c, backend),
            final(self).armed() == next_armed(old(self)@, old(self).armed(), *c, backend),
    {
        match self.check(c) {
            Err(e) => {
                return Err(e);
            },
            Ok(()) => {},
        }
        match backend {
            Err(k) => {
                return Err(DispatchError::BackendRejected(k));
            },
            Ok(()) => {},
        }
        match c {
            Change::Register(reg) => {
                if self.token_of(reg.source).is_some() {
                    return Err(DispatchError::BackendRejected(IoKind::AlreadyExists));
                }
            },
            _ => {},
        }
        let ghost old_self = *self;
        match c {
            Change::Register(reg) | Change::Reregister(reg) => {
                let reg = *reg;
                self.slots.insert(reg.token.0, Slot { reg, armed: true });
                self.owners.insert(reg.source.0, reg.token.0);
                proof {
                    assert forall|t: usize| #[trigger]
                        self.slots@.contains_key(t) implies {
                        &&& self.slots@[t].reg.token.0 == t
                        &&& self.owners@.contains_key(self.slots@[t].reg.source.0)
                        &&& self.owners@[self.slots@[t].reg.source.0] == t
                    } by {
                        if t != reg.token.0 {
                            let s2 = old_self.slots@[t].reg.source;
                            if s2.0 == reg.source.0 {
                                assert(old_self@.contains_key(t) && old_self@[t].source == s2);
                                assert(source_registered(old_self@, reg.source));
                            }
                        }
                    }
                    assert forall|s: u64| #[trigger]
                        self.owners@.contains_key(s) implies {
                        &&& self.slots@.contains_key(self.owners@[s])
                        &&& self.slots@[self.owners@[s]].reg.source.0 == s
                    } by {
                        if s != reg.source.0 {
                            let t2 = old_self.owners@[s];
                            assert(old_self.slots@.contains_key(t2));
                            if t2 == reg.token.0 {
                                assert(old_self.slots@[t2].reg.source.0 == s);
                            }
                        }
                    }
                    assert(self@ =~= old_self@.insert(reg.token.0, reg));
                    assert(self.armed() =~= old_self.armed().insert(reg.token.0));
                }
            },
            Change::Deregister(s) => {
                let s = *s;
                let t = match self.owners.remove(&s.0) {
                    Some(t) => t,
                    None => {
                        return Err(DispatchError::InvalidToken);
                    },
                };
                self.slots.remove(&t);
                proof {
                    assert(old_self@.contains_key(t) && old_self@[t].source == s);
                    let ct = choose|t2: usize| old_self@.contains_key(t2) && old_self@[t2].source == s;
                    assert(old_self.slots@.contains_key(ct));
                    assert(ct == t);
                    assert(self@ =~= old_self@.remove(t));
                    assert(self.armed() =~= old_self.armed().remove(t));
                    assert forall|s2: u64| #[trigger]
                        self.owners@.contains_key(s2) implies {
                        &&& self.slots@.contains_key(self.owners@[s2])
                        &&& self.slots@[self.owners@[s2]].reg.source.0 == s2
                    } by {
                        assert(old_self.slots@.contains_key(old_self.owners@[s2]));
                    }
                }
            },
        }
        Ok(())
    }
}

} // verus!
