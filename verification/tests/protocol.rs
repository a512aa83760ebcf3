use hotaru::io::{advance, EmbeddedIo, FuturesIo, Progress};
use hotaru::protocol::{EmptyError, ProtocolError, ProtocolFlow, ProtocolRole, Stream, Transport};

#[test]
fn empty_error_has_no_payload() {
    assert_eq!(EmptyError::default(), EmptyError);
    assert_eq!(EmptyError.message(), "empty error");
    assert!(!EmptyError.can_continue());
}

#[test]
fn unit_stream_and_transport_are_numbered_zero() {
    assert_eq!(Stream::id(&()), 0);
    assert_eq!(Transport::id(&()), 0);
    assert_ne!(ProtocolFlow::Continue, ProtocolFlow::Close);
    assert_ne!(ProtocolRole::Server, ProtocolRole::Client);
}

#[test]
fn io_adapters_wrap_their_value() {
    let mut e = EmbeddedIo::new(5u8);
    *e.inner_mut() = 6;
    assert_eq!(*e.inner(), 6);
    assert_eq!(e.into_inner(), 6);
    let mut f = FuturesIo::new(String::from("a"));
    f.inner_mut().push('b');
    assert_eq!(f.inner(), "ab");
    assert_eq!(f.into_inner(), "ab");
}

#[test]
fn fill_progress() {
    assert_eq!(advance(0, 10, 0), Progress::Stalled);
    assert_eq!(advance(0, 10, 4), Progress::Partial(4));
    assert_eq!(advance(4, 10, 6), Progress::Done);
}
