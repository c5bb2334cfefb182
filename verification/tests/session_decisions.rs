use recon::network::sessions::{
    interrupted, next, would_block, write_step, IoErrorKind, ReadOutcome, ReadState, ReadStep,
    Route, Sessions, Token, WriteOutcome, WriteStep, FIRST_CONNECTION, IN, SERVER,
};

#[test]
fn next_hands_out_and_advances() {
    let mut t = Token(4);
    assert_eq!(next(&mut t), Token(4));
    assert_eq!(next(&mut t), Token(5));
    assert_eq!(t, Token(6));
}

#[test]
fn events_are_routed_by_token() {
    let mut s = Sessions::new();
    assert_eq!(s.peek_token(), Token(FIRST_CONNECTION));
    assert_eq!(s.route(Token(SERVER)), Route::Server);
    assert_eq!(s.route(Token(IN)), Route::Stdin);
    assert_eq!(s.route(Token(FIRST_CONNECTION)), Route::Unknown);
    let a = s.accept();
    let b = s.accept();
    assert_eq!(a, Token(4));
    assert_eq!(b, Token(5));
    assert_eq!(s.route(a), Route::Connection);
    assert_eq!(s.route(b), Route::Connection);
    s.close(a);
    assert_eq!(s.route(a), Route::Unknown);
    assert_eq!(s.route(b), Route::Connection);
    // a closed token is never handed out again
    let c = s.accept();
    assert_eq!(c, Token(6));
    assert_eq!(s.route(Token(1)), Route::Unknown);
}

#[test]
fn error_kinds() {
    assert!(would_block(IoErrorKind::WouldBlock));
    assert!(!would_block(IoErrorKind::Interrupted));
    assert!(interrupted(IoErrorKind::Interrupted));
    assert!(!interrupted(IoErrorKind::Other));
}

#[test]
fn steps_after_writing_the_greeting() {
    assert_eq!(write_step(WriteOutcome::Written(13), 13), WriteStep::Reregister);
    assert_eq!(write_step(WriteOutcome::Written(20), 13), WriteStep::Reregister);
    assert_eq!(write_step(WriteOutcome::Written(5), 13), WriteStep::ShortWrite);
    assert_eq!(write_step(WriteOutcome::Written(0), 13), WriteStep::ShortWrite);
    assert_eq!(write_step(WriteOutcome::Failed(IoErrorKind::WouldBlock), 13), WriteStep::Continue);
    assert_eq!(write_step(WriteOutcome::Failed(IoErrorKind::Interrupted), 13), WriteStep::Retry);
    assert_eq!(write_step(WriteOutcome::Failed(IoErrorKind::Other), 13), WriteStep::Fail);
}

#[test]
fn reading_grows_the_buffer_when_full() {
    let mut r = ReadState::new();
    assert_eq!(r.buffer_len(), 4096);
    assert_eq!(r.bytes_read(), 0);
    assert_eq!(r.record(ReadOutcome::Read(100)), ReadStep::Continue);
    assert_eq!(r.bytes_read(), 100);
    assert_eq!(r.buffer_len(), 4096);
    assert_eq!(r.record(ReadOutcome::Read(3996)), ReadStep::Continue);
    assert_eq!(r.bytes_read(), 4096);
    assert_eq!(r.buffer_len(), 5120);
    assert!(r.bytes_read() < r.buffer_len());
    assert_eq!(r.record(ReadOutcome::Failed(IoErrorKind::Interrupted)), ReadStep::Continue);
    assert_eq!(r.record(ReadOutcome::Failed(IoErrorKind::WouldBlock)), ReadStep::Stop);
    assert!(!r.is_closed());
    assert_eq!(r.record(ReadOutcome::Read(0)), ReadStep::Stop);
    assert!(r.is_closed());
    assert_eq!(r.bytes_read(), 4096);
    assert_eq!(r.record(ReadOutcome::Failed(IoErrorKind::Other)), ReadStep::Fail);
}

#[test]
fn next_hands_out_consecutive_tokens_past_the_reserved_ones() {
    let mut t = Token(FIRST_CONNECTION);
    let handed: Vec<Token> = (0..50).map(|_| next(&mut t)).collect();
    for (k, tok) in handed.iter().enumerate() {
        assert_eq!(tok.0, FIRST_CONNECTION + k);
        assert!(tok.0 > SERVER);
    }
    assert_eq!(t, Token(FIRST_CONNECTION + 50));
}
