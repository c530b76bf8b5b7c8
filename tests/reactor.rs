#![allow(deprecated)]

use std::io;
use std::time::{Duration, Instant};

use mio::{Events, Poll, PollOpt, Ready};
use mio_serial::{
    Change, DispatchError, Dispatcher, Interest, IoKind, ReadyEvent, Registration, Token,
    TriggerMode, WaitStep,
};

fn kind_of(e: &io::Error) -> IoKind {
    match e.kind() {
        io::ErrorKind::WouldBlock => IoKind::WouldBlock,
        io::ErrorKind::TimedOut => IoKind::TimedOut,
        io::ErrorKind::Interrupted => IoKind::Interrupted,
        _ => IoKind::Other,
    }
}

fn register<E: mio::Evented>(
    poll: &Poll,
    d: &mut Dispatcher,
    source: &E,
    token: usize,
    mode: TriggerMode,
) -> Result<(), DispatchError> {
    let id = d.allocate_auxiliary().unwrap();
    let reg = Registration { token: Token(token), source: id, interest: Interest::readable(), mode };
    d.check(&Change::Register(reg))?;
    let opt = match mode {
        TriggerMode::Level => PollOpt::level(),
        TriggerMode::Edge => PollOpt::edge(),
    };
    let backend = poll
        .register(source, mio::Token(token), Ready::readable(), opt)
        .map_err(|e| kind_of(&e));
    d.register(reg, backend)
}

fn wait(
    poll: &Poll,
    events: &mut Events,
    d: &mut Dispatcher,
    timeout: Option<u64>,
) -> Result<Vec<ReadyEvent>, DispatchError> {
    let start = Instant::now();
    let mut next = timeout;
    loop {
        let polled = match poll.poll(events, next.map(Duration::from_millis)) {
            Ok(_) => Ok(events
                .iter()
                .map(|e| ReadyEvent {
                    token: Token(e.token().0),
                    ready: Interest {
                        readable: e.readiness().is_readable(),
                        writable: e.readiness().is_writable(),
                    },
                })
                .collect()),
            Err(e) => Err(kind_of(&e)),
        };
        let elapsed = start.elapsed().as_millis() as u64;
        match d.after_poll(timeout, elapsed, polled) {
            WaitStep::Poll(t) => next = t,
            WaitStep::Deliver(batch) => return Ok(batch),
            WaitStep::Fail(e) => return Err(e),
        }
    }
}

#[test]
fn timer_wakes_wait_after_deadline() {
    let poll = Poll::new().unwrap();
    let mut events = Events::with_capacity(256);
    let mut d = Dispatcher::new();
    let mut timer = mio::timer::Builder::default()
        .tick_duration(Duration::from_millis(1))
        .build::<&str>();
    register(&poll, &mut d, &timer, 1, TriggerMode::Edge).unwrap();
    let start = Instant::now();
    timer.set_timeout(Duration::from_millis(50), "timeout").unwrap();
    let batch = wait(&poll, &mut events, &mut d, None).unwrap();
    let elapsed = start.elapsed();
    assert_eq!(batch, vec![ReadyEvent { token: Token(1), ready: Interest::readable() }]);
    assert!(elapsed >= Duration::from_millis(50));
    assert_eq!(timer.poll(), Some("timeout"));
    assert_eq!(timer.poll(), None);
}

#[test]
fn wait_with_timeout_and_nothing_ready_is_empty() {
    let poll = Poll::new().unwrap();
    let mut events = Events::with_capacity(256);
    let mut d = Dispatcher::new();
    let (_tx, rx) = mio::channel::channel::<u32>();
    register(&poll, &mut d, &rx, 4, TriggerMode::Level).unwrap();
    let start = Instant::now();
    let batch = wait(&poll, &mut events, &mut d, Some(30)).unwrap();
    assert!(batch.is_empty());
    assert!(start.elapsed() >= Duration::from_millis(30));
}

#[test]
fn notification_ends_wait_with_payload() {
    let poll = Poll::new().unwrap();
    let mut events = Events::with_capacity(256);
    let mut d = Dispatcher::new();
    let (tx, rx) = mio::channel::channel::<u32>();
    register(&poll, &mut d, &rx, 7, TriggerMode::Edge).unwrap();
    tx.send(42).unwrap();
    let batch = wait(&poll, &mut events, &mut d, None).unwrap();
    assert_eq!(batch, vec![ReadyEvent { token: Token(7), ready: Interest::readable() }]);
    assert_eq!(rx.try_recv().unwrap(), 42);
}

#[test]
fn duplicate_token_is_refused_before_the_poller() {
    let poll = Poll::new().unwrap();
    let mut d = Dispatcher::new();
    let (_tx, rx) = mio::channel::channel::<u32>();
    let (_tx2, rx2) = mio::channel::channel::<u32>();
    register(&poll, &mut d, &rx, 0, TriggerMode::Level).unwrap();
    assert_eq!(
        register(&poll, &mut d, &rx2, 0, TriggerMode::Level),
        Err(DispatchError::DuplicateToken)
    );
}
