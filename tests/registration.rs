use mio_serial::{Change, DispatchError, Dispatcher, Interest, IoKind, Registration, SourceId, Token, TriggerMode};

fn reg(token: usize, source: u64, interest: Interest, mode: TriggerMode) -> Registration {
    Registration { token: Token(token), source: SourceId(source), interest, mode }
}

#[test]
fn register_then_lookup() {
    let mut d = Dispatcher::new();
    let r = reg(0, 7, Interest::readable(), TriggerMode::Level);
    assert_eq!(d.check(&Change::Register(r)), Ok(()));
    assert_eq!(d.register(r, Ok(())), Ok(()));
    assert_eq!(d.table().get(Token(0)), Some(r));
    assert_eq!(d.table().token_of(SourceId(7)), Some(Token(0)));
    assert!(d.table().is_armed(Token(0)));
}

#[test]
fn double_register_is_refused_and_keeps_state() {
    let mut d = Dispatcher::new();
    let first = reg(3, 10, Interest::readable(), TriggerMode::Level);
    d.register(first, Ok(())).unwrap();
    let second = reg(3, 11, Interest::writable(), TriggerMode::Edge);
    assert_eq!(d.check(&Change::Register(second)), Err(DispatchError::DuplicateToken));
    assert_eq!(d.register(second, Ok(())), Err(DispatchError::DuplicateToken));
    assert_eq!(d.table().get(Token(3)), Some(first));
    assert_eq!(d.table().token_of(SourceId(11)), None);
}

#[test]
fn source_registered_twice_is_refused() {
    let mut d = Dispatcher::new();
    d.register(reg(1, 10, Interest::readable(), TriggerMode::Level), Ok(())).unwrap();
    let again = reg(2, 10, Interest::readable(), TriggerMode::Level);
    assert_eq!(d.check(&Change::Register(again)), Ok(()));
    assert_eq!(
        d.register(again, Ok(())),
        Err(DispatchError::BackendRejected(IoKind::AlreadyExists))
    );
    assert_eq!(d.table().get(Token(2)), None);
    assert_eq!(d.table().token_of(SourceId(10)), Some(Token(1)));
}

#[test]
fn poller_refusal_of_registered_source_is_reported() {
    let mut d = Dispatcher::new();
    let first = reg(1, 5, Interest::readable(), TriggerMode::Level);
    d.register(first, Ok(())).unwrap();
    let again = reg(2, 5, Interest::readable(), TriggerMode::Level);
    assert_eq!(
        d.register(again, Err(IoKind::Other)),
        Err(DispatchError::BackendRejected(IoKind::Other))
    );
    assert_eq!(d.table().get(Token(1)), Some(first));
    assert_eq!(d.table().get(Token(2)), None);
}

#[test]
fn reregister_before_register_is_refused() {
    let mut d = Dispatcher::new();
    let r = reg(5, 9, Interest::readable(), TriggerMode::Level);
    assert_eq!(d.reregister(r, Ok(())), Err(DispatchError::InvalidToken));
    assert_eq!(d.table().get(Token(5)), None);
}

#[test]
fn reregister_with_another_source_is_refused() {
    let mut d = Dispatcher::new();
    let r = reg(5, 9, Interest::readable(), TriggerMode::Level);
    d.register(r, Ok(())).unwrap();
    let other = reg(5, 8, Interest::writable(), TriggerMode::Level);
    assert_eq!(d.reregister(other, Ok(())), Err(DispatchError::InvalidToken));
    assert_eq!(d.table().get(Token(5)), Some(r));
}

#[test]
fn reregister_replaces_interest_and_mode() {
    let mut d = Dispatcher::new();
    d.register(reg(5, 9, Interest::readable(), TriggerMode::Level), Ok(())).unwrap();
    let both = Interest::readable().union(&Interest::writable());
    let r = reg(5, 9, both, TriggerMode::Edge);
    assert_eq!(d.reregister(r, Ok(())), Ok(()));
    assert_eq!(d.table().get(Token(5)), Some(r));
}

#[test]
fn deregister_unknown_source_is_refused() {
    let mut d = Dispatcher::new();
    assert_eq!(d.deregister(SourceId(4), Ok(())), Err(DispatchError::InvalidToken));
    d.register(reg(0, 4, Interest::readable(), TriggerMode::Level), Ok(())).unwrap();
    assert_eq!(d.deregister(SourceId(4), Ok(())), Ok(()));
    assert_eq!(d.table().get(Token(0)), None);
    assert_eq!(d.deregister(SourceId(4), Ok(())), Err(DispatchError::InvalidToken));
}

#[test]
fn token_is_reusable_after_deregister() {
    let mut d = Dispatcher::new();
    d.register(reg(0, 4, Interest::readable(), TriggerMode::Level), Ok(())).unwrap();
    d.deregister(SourceId(4), Ok(())).unwrap();
    let r = reg(0, 6, Interest::writable(), TriggerMode::Edge);
    assert_eq!(d.register(r, Ok(())), Ok(()));
    assert_eq!(d.table().get(Token(0)), Some(r));
}

#[test]
fn backend_refusal_leaves_table_unchanged() {
    let mut d = Dispatcher::new();
    let r = reg(1, 3, Interest::readable(), TriggerMode::Level);
    assert_eq!(
        d.register(r, Err(IoKind::PermissionDenied)),
        Err(DispatchError::BackendRejected(IoKind::PermissionDenied))
    );
    assert_eq!(d.table().get(Token(1)), None);
    d.register(r, Ok(())).unwrap();
    assert_eq!(
        d.deregister(SourceId(3), Err(IoKind::NotFound)),
        Err(DispatchError::BackendRejected(IoKind::NotFound))
    );
    assert_eq!(d.table().get(Token(1)), Some(r));
}

#[test]
fn deregistering_original_keeps_duplicate() {
    let mut d = Dispatcher::new();
    let original = reg(0, 5, Interest::readable(), TriggerMode::Level);
    let duplicate = reg(1, 6, Interest::readable(), TriggerMode::Level);
    d.register(original, Ok(())).unwrap();
    d.register(duplicate, Ok(())).unwrap();
    d.deregister(SourceId(5), Ok(())).unwrap();
    assert_eq!(d.table().get(Token(0)), None);
    assert_eq!(d.table().get(Token(1)), Some(duplicate));
    assert_eq!(d.table().token_of(SourceId(6)), Some(Token(1)));
}

#[test]
fn auxiliary_identities_increase() {
    let mut d = Dispatcher::new();
    let a = d.allocate_auxiliary().unwrap();
    let b = d.allocate_auxiliary().unwrap();
    assert_eq!(a, SourceId(mio_serial::AUXILIARY_BASE));
    assert_eq!(b, SourceId(mio_serial::AUXILIARY_BASE + 1));
}

#[test]
fn interest_set_operations() {
    let r = Interest::readable();
    let w = Interest::writable();
    let both = r.union(&w);
    assert_eq!(both, Interest { readable: true, writable: true });
    assert_eq!(both.intersect(&w), w);
    assert!(r.intersect(&w).is_empty());
    assert!(both.contains(&r));
    assert!(!r.contains(&w));
    assert!(Interest::empty().is_empty());
}

#[test]
fn closing_a_source_drops_its_registration() {
    let mut d = Dispatcher::new();
    d.register(reg(2, 8, Interest::readable(), TriggerMode::Edge), Ok(())).unwrap();
    d.register(reg(3, 9, Interest::writable(), TriggerMode::Level), Ok(())).unwrap();
    assert_eq!(d.source_closed(SourceId(8)), Some(Token(2)));
    assert_eq!(d.table().get(Token(2)), None);
    assert!(d.table().get(Token(3)).is_some());
    assert_eq!(d.source_closed(SourceId(8)), None);
}
