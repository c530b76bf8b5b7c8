use vstd::prelude::*;

use crate::error::{DispatchError, IoKind};
use crate::table::{
    admission, next_armed, next_table, outcome, source_registered, Change, Registration, RegistrationTable, TableModel,
};
use crate::types::{Interest, SourceId, Token, TriggerMode};

verus! {

/// One readiness report: a token and the kinds of readiness observed.
#[derive(Clone, Copy, Debug, PartialEq, Eq, Structural)]
pub struct ReadyEvent {
    pub token: Token,
    pub ready: Interest,
}

/// What one event from the poller becomes in the batch: the readiness that
/// the registration asked for, if its token is registered and armed and any
/// such readiness was observed; nothing otherwise.
pub open spec fn deliver_one(m: TableModel, armed: Set<usize>, e: ReadyEvent) -> Option<ReadyEvent> {
    if m.contains_key(e.token.0) && armed.contains(e.token.0) {
        let ready = e.ready.spec_intersect(m[e.token.0].interest);
        if ready.spec_is_empty() {
            None
        } else {
            Some(ReadyEvent { token: e.token, ready })
        }
    } else {
        None
    }
}

/// The armed tokens after one event: an edge-triggered token that is
/// reported is disarmed.
pub open spec fn armed_after(m: TableModel, armed: Set<usize>, e: ReadyEvent) -> Set<usize> {
    if deliver_one(m, armed, e) is Some && m[e.token.0].mode == TriggerMode::Edge {
        armed.remove(e.token.0)
    } else {
        armed
    }
}

/// The batch made from the poller's events, in their order, and the armed
/// tokens afterwards.
pub open spec fn deliver(m: TableModel, armed: Set<usize>, raw: Seq<ReadyEvent>) -> (
    Seq<ReadyEvent>,
    Set<usize>,
)
    decreases raw.len(),
{
    if raw.len() == 0 {
        (Seq::empty(), armed)
    } else {
        let (out, a) = deliver(m, armed, raw.drop_last());
        match deliver_one(m, a, raw.last()) {
            Some(e) => (out.push(e), armed_after(m, a, raw.last())),
            None => (out, a),
        }
    }
}

/// How many events of a batch carry token `t`.
pub open spec fn reports(out: Seq<ReadyEvent>, t: usize) -> nat
    decreases out.len(),
{
    if out.len() == 0 {
        0
    } else {
        reports(out.drop_last(), t) + if out.last().token.0 == t {
            1nat
        } else {
            0nat
        }
    }
}

/// Whether a wait with this timeout (in milliseconds; `None`: no limit)
/// has run its course after `elapsed` milliseconds.
pub open spec fn expired(timeout: Option<u64>, elapsed: u64) -> bool {
    match timeout {
        Some(d) => elapsed >= d,
        None => false,
    }
}

/// The timeout for the next poll of a wait that has not expired.
pub open spec fn remaining(timeout: Option<u64>, elapsed: u64) -> Option<u64> {
    match timeout {
        Some(d) => Some((d - elapsed) as u64),
        None => None,
    }
}

/// Every event of a batch is for a registered token that was armed, and
/// reports some readiness that its registration asked for and nothing
/// else; delivering never arms a token.
pub proof fn lemma_batch_sound(m: TableModel, armed: Set<usize>, raw: Seq<ReadyEvent>)
    ensures
        forall|k: int|
            0 <= k < deliver(m, armed, raw).0.len() ==> {
                let e = #[trigger] deliver(m, armed, raw).0[k];
                &&& m.contains_key(e.token.0)
                &&& armed.contains(e.token.0)
                &&& !e.ready.spec_is_empty()
                &&& m[e.token.0].interest.spec_contains(e.ready)
            },
        deliver(m, armed, raw).1.subset_of(armed),
    decreases raw.len(),
{
    if raw.len() > 0 {
        lemma_batch_sound(m, armed, raw.drop_last());
    }
}

/// An edge-triggered token is reported at most once by the batches of
/// consecutive waits until it is armed again (by re-registering): counting
/// 1 for being armed afterwards, one delivery never counts more than it
/// counted for being armed before.
pub proof fn lemma_edge_reported_once(m: TableModel, armed: Set<usize>, raw: Seq<ReadyEvent>, t: usize)
    requires
        m.contains_key(t),
        m[t].mode == TriggerMode::Edge,
    ensures
        reports(deliver(m, armed, raw).0, t) + (if deliver(m, armed, raw).1.contains(t) {
            1nat
        } else {
            0nat
        }) <= if armed.contains(t) {
            1nat
        } else {
            0nat
        },
    decreases raw.len(),
{
    if raw.len() > 0 {
        lemma_edge_reported_once(m, armed, raw.drop_last(), t);
        let (out, a) = deliver(m, armed, raw.drop_last());
        if let Some(e) = deliver_one(m, a, raw.last()) {
            assert(out.push(e).drop_last() =~= out);
        }
    }
}

/// Two waits in a row with no re-registration between them report an
/// edge-triggered token at most once in all, and not at all if it was not
/// armed.
pub proof fn lemma_edge_silent_until_rearmed(
    m: TableModel,
    armed: Set<usize>,
    first: Seq<ReadyEvent>,
    second: Seq<ReadyEvent>,
    t: usize,
)
    requires
        m.contains_key(t),
        m[t].mode == TriggerMode::Edge,
    ensures
        reports(deliver(m, armed, first).0, t) + reports(
            deliver(m, deliver(m, armed, first).1, second).0,
            t,
        ) <= 1,
        !armed.contains(t) ==> reports(deliver(m, armed, first).0, t) + reports(
            deliver(m, deliver(m, armed, first).1, second).0,
            t,
        ) == 0,
{
    lemma_edge_reported_once(m, armed, first, t);
    lemma_edge_reported_once(m, deliver(m, armed, first).1, second, t);
}

/// A level-triggered token stays armed, and is reported by every batch
/// whose events from the poller show it ready for something it asked for.
pub proof fn lemma_level_reported_while_ready(
    m: TableModel,
    armed: Set<usize>,
    raw: Seq<ReadyEvent>,
    t: usize,
)
    requires
        m.contains_key(t),
        m[t].mode == TriggerMode::Level,
    ensures
        deliver(m, armed, raw).1.contains(t) == armed.contains(t),
        armed.contains(t) && (exists|i: int|
            0 <= i < raw.len() && (#[trigger] raw[i]).token.0 == t && !raw[i].ready.spec_intersect(
                m[t].interest,
            ).spec_is_empty()) ==> reports(deliver(m, armed, raw).0, t) >= 1,
    decreases raw.len(),
{
    if raw.len() > 0 {
        let p = raw.drop_last();
        lemma_level_reported_while_ready(m, armed, p, t);
        if armed.contains(t) && (exists|i: int|
            0 <= i < raw.len() && (#[trigger] raw[i]).token.0 == t && !raw[i].ready.spec_intersect(
                m[t].interest,
            ).spec_is_empty()) {
            let i = choose|i: int|
                0 <= i < raw.len() && (#[trigger] raw[i]).token.0 == t && !raw[i].ready.spec_intersect(
                    m[t].interest,
                ).spec_is_empty();
            if i < p.len() {
                assert(p[i] == raw[i]);
            }
        }
        let (out, a) = deliver(m, armed, p);
        if let Some(e) = deliver_one(m, a, raw.last()) {
            assert(out.push(e).drop_last() =~= out);
        }
    }
}

/// What to do after the poller returned, within one wait call.
#[derive(Debug)]
pub enum WaitStep {
    /// Poll again, with this timeout in milliseconds.
    Poll(Option<u64>),
    /// Hand this batch to the application; the wait is over.
    Deliver(Vec<ReadyEvent>),
    /// The wait failed.
    Fail(DispatchError),
}

/// The readiness dispatcher: its registration table, and the decisions of
/// the wait loop. The caller performs each poller call that a decision asks
/// for and hands its outcome back.
pub struct Dispatcher {
    table: RegistrationTable,
    next_auxiliary: u64,
}

/// The least identity handed out for auxiliary sources (timers, wakeup
/// channels); descriptors and handles of devices stay below it.
pub const AUXILIARY_BASE: u64 = 0x8000_0000_0000_0000;

impl Dispatcher {
    pub closed spec fn wf(&self) -> bool {
        &&& self.table.wf()
        &&& self.next_auxiliary >= AUXILIARY_BASE
    }

    /// The registrations, keyed by token.
    pub closed spec fn model(&self) -> TableModel {
        self.table@
    }

    /// The tokens that the next wait may report.
    pub closed spec fn armed(&self) -> Set<usize> {
        self.table.armed()
    }

    pub closed spec fn next_auxiliary(&self) -> u64 {
        self.next_auxiliary
    }

    pub fn new() -> (r: Dispatcher)
        ensures
            r.wf(),
            r.model() == Map::<usize, Registration>::empty(),
            r.armed() == Set::<usize>::empty(),
            r.next_auxiliary() == AUXILIARY_BASE,
    {
        Dispatcher { table: RegistrationTable::new(), next_auxiliary: AUXILIARY_BASE }
    }

    /// The registration table.
    pub fn table(&self) -> (r: &RegistrationTable)
        requires
            self.wf(),
        ensures
            r.wf(),
            r@ == self.model(),
            r.armed() == self.armed(),
    {
        &self.table
    }
    /// An identity for a new auxiliary source (a timer, a wakeup channel):
    /// each one is above every identity handed out before it. `None` once
    /// the identities are used up.
    pub fn allocate_auxiliary(&mut self) -> (r: Option<SourceId>)
        requires
            old(self).wf(),
        ensures
            final(self).wf(),
            final(self).model() == old(self).model(),
            final(self).armed() == old(self).armed(),
            old(self).next_auxiliary() < u64::MAX ==> r == Some(SourceId(old(self).next_auxiliary()))
                && final(self).next_auxiliary() == old(self).next_auxiliary() + 1,
            old(self).next_auxiliary() == u64::MAX ==> r is None && final(self).next_auxiliary()
                == old(self).next_auxiliary(),
    {
        if self.next_auxiliary == u64::MAX {
            None
        } else {
            let s = SourceId(self.next_auxiliary);
            self.next_auxiliary = self.next_auxiliary + 1;
            Some(s)
        }
    }

    /// Whether a change is allowed now, and if not, the error it gets. The
    /// poller is to be asked to make the change only when this is `Ok`.
    pub fn check(&self, c: &Change) -> (r: Result<(), DispatchError>)
        requires
            self.wf(),
        ensures
            r == admission(self.model(), *c),
    {
        self.table.check(c)
    }

    /// Records a registration change, given what the poller answered to it.
    fn change(&mut self, c: &Change, backend: Result<(), IoKind>) -> (r: Result<(), DispatchError>)
        requires
            old(self).wf(),
        ensures
            final(self).wf(),
            r == outcome(old(self).model(), *c, backend),
            final(self).model() == next_table(old(self).model(), *c, backend),
            final(self).armed() == next_armed(old(self).model(), old(self).armed(), *c, backend),
            final(self).next_auxiliary() == old(self).next_auxiliary(),
    {
        self.table.apply(c, backend)
    }

    /// Registers a source under a token, given the poller's answer to the
    /// same registration. Fails with `DuplicateToken` if the token is taken;
    /// otherwise with `BackendRejected` if the poller refused, or, with
    /// `AlreadyExists`, if the source is registered under another token. On
    /// failure the table is unchanged.
    pub fn register(&mut self, reg: Registration, backend: Result<(), IoKind>) -> (r: Result<
        (),
        DispatchError,
    >)
        requires
            old(self).wf(),
        ensures
            final(self).wf(),
            r == outcome(old(self).model(), Change::Register(reg), backend),
            final(self).model() == next_table(old(self).model(), Change::Register(reg), backend),
            final(self).armed() == next_armed(
                old(self).model(),
                old(self).armed(),
                Change::Register(reg),
                backend,
            ),
            final(self).next_auxiliary() == old(self).next_auxiliary(),
    {
        self.change(&Change::Register(reg), backend)
    }

    /// Replaces the interest and mode of a registration, given the poller's
    /// answer. Fails with `InvalidToken` unless the token is registered to
    /// the same source; re-arms the token on success.
    pub fn reregister(&mut self, reg: Registration, backend: Result<(), IoKind>) -> (r: Result<
        (),
        DispatchError,
    >)
        requires
            old(self).wf(),
        ensures
            final(self).wf(),
            r == outcome(old(self).model(), Change::Reregister(reg), backend),
            final(self).model() == next_table(old(self).model(), Change::Reregister(reg), backend),
            final(self).armed() == next_armed(
                old(self).model(),
                old(self).armed(),
                Change::Reregister(reg),
                backend,
            ),
            final(self).next_auxiliary() == old(self).next_auxiliary(),
    {
        self.change(&Change::Reregister(reg), backend)
    }

    /// Removes the registration of a source, given the poller's answer.
    /// Fails with `InvalidToken` if the source is not registered.
    pub fn deregister(&mut self, source: SourceId, backend: Result<(), IoKind>) -> (r: Result<
        (),
        DispatchError,
    >)
        requires
            old(self).wf(),
        ensures
            final(self).wf(),
            r == outcome(old(self).model(), Change::Deregister(source), backend),
            final(self).model() == next_table(
                old(self).model(),
                Change::Deregister(source),
                backend,
            ),
            final(self).armed() == next_armed(
                old(self).model(),
                old(self).armed(),
                Change::Deregister(source),
                backend,
            ),
            final(self).next_auxiliary() == old(self).next_auxiliary(),
    {
        self.change(&Change::Deregister(source), backend)
    }

    /// Drops the registration of a source whose handle was closed; the
    /// poller forgets a closed descriptor by itself and is not asked.
    /// Returns the token it was registered under, `None` if it was not.
    pub fn source_closed(&mut self, source: SourceId) -> (r: Option<Token>)
        requires
            old(self).wf(),
        ensures
            final(self).wf(),
            final(self).next_auxiliary() == old(self).next_auxiliary(),
            r is None <==> !source_registered(old(self).model(), source),
            r is None ==> final(self).model() == old(self).model() && final(self).armed()
                == old(self).armed(),
            r matches Some(t) ==> {
                &&& old(self).model().contains_key(t.0)
                &&& old(self).model()[t.0].source == source
                &&& final(self).model() == old(self).model().remove(t.0)
                &&& final(self).armed() == old(self).armed().remove(t.0)
            },
    {
        let t = self.table.token_of(source);
        if t.is_some() {
            let ghost m = self.model();
            let ghost before = self.table;
            let _ = self.change(&Change::Deregister(source), Ok(()));
            proof {
                let tt = t.unwrap().0;
                let ct = choose|t2: usize| m.contains_key(t2) && m[t2].source == source;
                before.lemma_one_token_per_source(ct, tt);
            }
        }
        t
    }

    /// Turns the poller's events into the batch for the application, in
    /// their order (see `deliver`), disarming the edge-triggered tokens it
    /// reports.
    pub fn deliver(&mut self, raw: &Vec<ReadyEvent>) -> (out: Vec<ReadyEvent>)
        requires
            old(self).wf(),
        ensures
            final(self).wf(),
            final(self).model() == old(self).model(),
            final(self).next_auxiliary() == old(self).next_auxiliary(),
            (out@, final(self).armed()) == deliver(old(self).model(), old(self).armed(), raw@),
    {
        let ghost m = self.model();
        let ghost a0 = self.armed();
        let mut out: Vec<ReadyEvent> = Vec::new();
        let mut i: usize = 0;
        while i < raw.len()
            invariant
                self.wf(),
                self.model() == m,
                self.next_auxiliary() == old(self).next_auxiliary(),
                m == old(self).model(),
                a0 == old(self).armed(),
                0 <= i <= raw.len(),
                (out@, self.armed()) == deliver(m, a0, raw@.take(i as int)),
            decreases raw.len() - i,
        {
            let e = raw[i];
            proof {
                assert(raw@.take(i + 1).drop_last() =~= raw@.take(i as int));
                assert(raw@.take(i + 1).last() == e);
            }
            match self.table.get(e.token) {
                Some(reg) => {
                    if self.table.is_armed(e.token) {
                        let ready = e.ready.intersect(&reg.interest);
                        if !ready.is_empty() {
                            out.push(ReadyEvent { token: e.token, ready });
                            match reg.mode {
                                TriggerMode::Edge => self.table.disarm(e.token),
                                TriggerMode::Level => {},
                            }
                        }
                    }
                },
                None => {},
            }
            i = i + 1;
        }
        assert(raw@.take(raw@.len() as int) =~= raw@);
        out
    }

    /// Decides how a wait goes on after the poller returned `polled`, when
    /// `elapsed` milliseconds have passed since the wait began.
    ///
    /// An interrupted poll is retried unless the timeout has run out; any
    /// other failure ends the wait. Events become a batch as `deliver` says;
    /// a batch with something in it ends the wait. An empty batch ends it only
    /// once the timeout has run out: otherwise the poller is asked again, for
    /// the time that is left. So a wait without a timeout never hands back
    /// an empty batch.
    pub fn after_poll(
        &mut self,
        timeout: Option<u64>,
        elapsed: u64,
        polled: Result<Vec<ReadyEvent>, IoKind>,
    ) -> (r: WaitStep)
        requires
            old(self).wf(),
        ensures
            final(self).wf(),
            final(self).model() == old(self).model(),
            final(self).next_auxiliary() == old(self).next_auxiliary(),
            match polled {
                Err(k) => {
                    &&& final(self).armed() == old(self).armed()
                    &&& if k != IoKind::Interrupted {
                        r matches WaitStep::Fail(e) && e == DispatchError::BackendFailure(k)
                    } else if expired(timeout, elapsed) {
                        r matches WaitStep::Deliver(b) && b@.len() == 0
                    } else {
                        r matches WaitStep::Poll(t) && t == remaining(timeout, elapsed)
                    }
                },
                Ok(raw) => {
                    let (batch, a) = deliver(old(self).model(), old(self).armed(), raw@);
                    &&& final(self).armed() == a
                    &&& if batch.len() > 0 {
                        r matches WaitStep::Deliver(b) && b@ == batch
                    } else if expired(timeout, elapsed) {
                        r matches WaitStep::Deliver(b) && b@.len() == 0
                    } else {
                        r matches WaitStep::Poll(t) && t == remaining(timeout, elapsed)
                    }
                },
            },
            r matches WaitStep::Deliver(b) && b@.len() == 0 ==> expired(timeout, elapsed),
            timeout is None ==> !(r matches WaitStep::Deliver(b) && b@.len() == 0),
    {
        let batch = match polled {
            Err(k) => {
                match k {
                    IoKind::Interrupted => Vec::new(),
                    _ => {
                        return WaitStep::Fail(DispatchError::BackendFailure(k));
                    },
                }
            },
            Ok(raw) => self.deliver(&raw),
        };
        if batch.len() > 0 {
            return WaitStep::Deliver(batch);
        }
        match timeout {
            Some(d) => {
                if elapsed >= d {
                    WaitStep::Deliver(batch)
                } else {
                    WaitStep::Poll(Some(d - elapsed))
                }
            },
            None => WaitStep::Poll(None),
        }
    }
}

} // verus!
