use replfs::repl::{
    decode_response, port_builder, Action, Event, Pending, Repl, SessionError, SessionState,
    BAUD_RATE, TIMEOUT_MILLIS,
};
use std::time::Duration;

/// Starts a session as a device would let it: everything succeeds and the
/// line is silent.
fn started() -> Repl {
    let (mut repl, action) = Repl::from_path("/dev/ttyACM0");
    assert!(matches!(action, Action::Open { .. }));
    assert!(matches!(repl.resume(Event::Opened), Action::Write(_)));
    assert!(matches!(repl.resume(Event::Written), Action::Write(_)));
    assert!(matches!(repl.resume(Event::Written), Action::Read));
    assert!(matches!(repl.resume(Event::TimedOut), Action::Finished(Ok(_))));
    repl
}

/// Runs `code` and delivers the response in the given chunks.
fn run_with(repl: &mut Repl, code: &[u8], chunks: &[&[u8]]) -> Result<Vec<u8>, SessionError> {
    match repl.run(code) {
        Action::Write(bytes) => assert_eq!(bytes, code.to_vec()),
        other => panic!("unexpected action {:?}", other),
    }
    match repl.resume(Event::Written) {
        Action::Write(bytes) => assert_eq!(bytes, vec![0x04]),
        other => panic!("unexpected action {:?}", other),
    }
    assert!(matches!(repl.resume(Event::Written), Action::Read));
    for chunk in chunks {
        assert!(matches!(repl.resume(Event::Received(chunk.to_vec())), Action::Read));
    }
    match repl.resume(Event::TimedOut) {
        Action::Finished(outcome) => outcome,
        other => panic!("unexpected action {:?}", other),
    }
}

#[test]
fn connecting_follows_the_startup_sequence() {
    let (mut repl, action) = Repl::from_path("/dev/ttyUSB3");
    match action {
        Action::Open { path, baud_rate, timeout_millis } => {
            assert_eq!(path, "/dev/ttyUSB3");
            assert_eq!(baud_rate, 115_200);
            assert_eq!(baud_rate, BAUD_RATE);
            assert_eq!(timeout_millis, 10);
            assert_eq!(timeout_millis, TIMEOUT_MILLIS);
        }
        other => panic!("unexpected action {:?}", other),
    }
    assert_eq!(repl.state(), SessionState::Idle);
    assert_eq!(repl.pending(), Pending::Open);
    match repl.resume(Event::Opened) {
        Action::Write(bytes) => assert_eq!(bytes, vec![0x03, 0x03]),
        other => panic!("unexpected action {:?}", other),
    }
    match repl.resume(Event::Written) {
        Action::Write(bytes) => assert_eq!(bytes, vec![0x01]),
        other => panic!("unexpected action {:?}", other),
    }
    assert!(matches!(repl.resume(Event::Written), Action::Read));
    assert!(matches!(repl.resume(Event::Received(b"MicroPython v1".to_vec())), Action::Read));
    assert!(matches!(repl.resume(Event::Received(b"\r\n>>> ".to_vec())), Action::Read));
    assert_eq!(repl.state(), SessionState::Idle);
    match repl.resume(Event::TimedOut) {
        Action::Finished(Ok(payload)) => assert!(payload.is_empty()),
        other => panic!("unexpected action {:?}", other),
    }
    assert_eq!(repl.state(), SessionState::RawMode);
    assert_eq!(repl.pending(), Pending::Nothing);
    assert!(repl.is_ready());
}

#[test]
fn start_on_a_new_session_skips_the_open() {
    let mut repl = Repl::new();
    assert_eq!(repl.state(), SessionState::Idle);
    assert!(!repl.is_ready());
    match repl.start() {
        Action::Write(bytes) => assert_eq!(bytes, vec![0x03, 0x03]),
        other => panic!("unexpected action {:?}", other),
    }
    match repl.resume(Event::Written) {
        Action::Write(bytes) => assert_eq!(bytes, vec![0x01]),
        other => panic!("unexpected action {:?}", other),
    }
    assert!(matches!(repl.resume(Event::Written), Action::Read));
    assert!(matches!(repl.resume(Event::Received(Vec::new())), Action::Finished(Ok(_))));
    assert!(repl.is_ready());
}

#[test]
fn failed_open_is_a_connect_error() {
    let (mut repl, _) = Repl::from_path("/dev/ttyACM0");
    assert!(matches!(
        repl.resume(Event::Failed),
        Action::Finished(Err(SessionError::Connect))
    ));
    assert_eq!(repl.state(), SessionState::Closed);
    assert!(matches!(repl.start(), Action::Finished(Err(SessionError::Connect))));
    assert!(matches!(repl.run(b"1"), Action::Finished(Err(SessionError::Transport))));
    assert_eq!(repl.state(), SessionState::Closed);
}

#[test]
fn failed_handshake_is_a_connect_error() {
    let (mut repl, _) = Repl::from_path("/dev/ttyACM0");
    repl.resume(Event::Opened);
    assert!(matches!(
        repl.resume(Event::Failed),
        Action::Finished(Err(SessionError::Connect))
    ));
    assert_eq!(repl.state(), SessionState::Closed);

    let (mut repl, _) = Repl::from_path("/dev/ttyACM0");
    repl.resume(Event::Opened);
    repl.resume(Event::Written);
    repl.resume(Event::Written);
    assert!(matches!(
        repl.resume(Event::Failed),
        Action::Finished(Err(SessionError::Connect))
    ));
    assert_eq!(repl.state(), SessionState::Closed);
}

#[test]
fn run_strips_prefix_and_trailer() {
    let mut repl = started();
    let payload = run_with(&mut repl, b"print(1)", &[b"OK1\n\x04\x04>"]).unwrap();
    assert_eq!(payload, b"1".to_vec());
    assert!(repl.is_ready());
    let payload = run_with(&mut repl, b"pass", &[b"OK\x04\x04>\n"]).unwrap();
    assert_eq!(payload, Vec::<u8>::new());
}

#[test]
fn run_result_does_not_depend_on_chunking() {
    let whole: &[u8] = b"OK(4096, 4096, 1000, 500, 500, 200, 100, 100, 0, 255)\r\n\x04>";
    let mut repl = started();
    let single = run_with(&mut repl, b"os.statvfs()", &[whole]).unwrap();
    let halves = run_with(&mut repl, b"os.statvfs()", &[&whole[..20], &whole[20..]]).unwrap();
    let cut_in_prefix = run_with(&mut repl, b"os.statvfs()", &[&whole[..1], &whole[1..]]).unwrap();
    let bytes: Vec<&[u8]> = whole.chunks(1).collect();
    let bytewise = run_with(&mut repl, b"os.statvfs()", &bytes).unwrap();
    assert_eq!(single, whole[2..whole.len() - 4].to_vec());
    assert_eq!(single, b"(4096, 4096, 1000, 500, 500, 200, 100, 100, 0, 255)".to_vec());
    assert_eq!(halves, single);
    assert_eq!(cut_in_prefix, single);
    assert_eq!(bytewise, single);
}

#[test]
fn response_without_ok_is_a_protocol_error() {
    let mut repl = started();
    let raw: &[u8] = b"Traceback (most recent call last):\r\n\x04>";
    match run_with(&mut repl, b"1/0", &[raw]) {
        Err(SessionError::Protocol(kept)) => assert_eq!(kept, raw.to_vec()),
        other => panic!("unexpected outcome {:?}", other),
    }
    assert!(repl.is_ready());
    match run_with(&mut repl, b"1/0", &[]) {
        Err(SessionError::Protocol(kept)) => assert!(kept.is_empty()),
        other => panic!("unexpected outcome {:?}", other),
    }
}

#[test]
fn short_response_is_a_protocol_error() {
    assert!(matches!(decode_response(b"OK".to_vec()), Err(SessionError::Protocol(_))));
    assert!(matches!(decode_response(b"OK123".to_vec()), Err(SessionError::Protocol(_))));
    assert!(matches!(decode_response(b"ok1234".to_vec()), Err(SessionError::Protocol(_))));
    assert!(matches!(decode_response(b"KO1234".to_vec()), Err(SessionError::Protocol(_))));
    assert_eq!(decode_response(b"OK1234".to_vec()).unwrap(), Vec::<u8>::new());
    assert_eq!(decode_response(b"OKx1234".to_vec()).unwrap(), b"x".to_vec());
}

#[test]
fn failure_during_a_run_is_a_transport_error() {
    let mut repl = started();
    assert!(matches!(repl.run(b"x"), Action::Write(_)));
    assert!(matches!(
        repl.resume(Event::Failed),
        Action::Finished(Err(SessionError::Transport))
    ));
    assert_eq!(repl.state(), SessionState::Closed);

    let mut repl = started();
    repl.run(b"x");
    repl.resume(Event::Written);
    repl.resume(Event::Written);
    repl.resume(Event::Received(b"OK12".to_vec()));
    assert!(matches!(
        repl.resume(Event::Failed),
        Action::Finished(Err(SessionError::Transport))
    ));
    assert_eq!(repl.state(), SessionState::Closed);
    assert!(matches!(repl.run(b"x"), Action::Finished(Err(SessionError::Transport))));
}

#[test]
fn run_is_refused_unless_ready() {
    let mut repl = Repl::new();
    assert!(matches!(repl.run(b"x"), Action::Finished(Err(SessionError::Transport))));
    assert_eq!(repl.state(), SessionState::Idle);
    assert_eq!(repl.pending(), Pending::Nothing);

    let mut repl = started();
    assert!(matches!(repl.run(b"first"), Action::Write(_)));
    assert!(matches!(repl.run(b"second"), Action::Finished(Err(SessionError::Transport))));
    assert_eq!(repl.pending(), Pending::Code);
    assert!(matches!(repl.start(), Action::Finished(Err(SessionError::Connect))));
    assert_eq!(repl.pending(), Pending::Code);
}

#[test]
fn event_without_operation_is_refused() {
    let mut repl = started();
    assert!(matches!(
        repl.resume(Event::Received(b"stray".to_vec())),
        Action::Finished(Err(SessionError::Transport))
    ));
    assert!(repl.is_ready());
    assert_eq!(run_with(&mut repl, b"x", &[b"OKy\r\n\x04>"]).unwrap(), b"y".to_vec());
}

#[test]
fn unexpected_event_closes_the_session() {
    let mut repl = started();
    repl.run(b"x");
    assert!(matches!(
        repl.resume(Event::TimedOut),
        Action::Finished(Err(SessionError::Transport))
    ));
    assert_eq!(repl.state(), SessionState::Closed);
}

#[test]
fn each_run_starts_with_an_empty_response() {
    let mut repl = started();
    assert_eq!(run_with(&mut repl, b"a", &[b"OKfirst\r\n\x04>"]).unwrap(), b"first".to_vec());
    assert_eq!(run_with(&mut repl, b"b", &[b"OKsecond\r\n\x04>"]).unwrap(), b"second".to_vec());
}

#[test]
fn port_settings_carry_path_speed_and_timeout() {
    let (_, action) = Repl::from_path("/dev/ttyACM7");
    let builder = match action {
        Action::Open { path, baud_rate, timeout_millis } => {
            port_builder(&path, baud_rate, timeout_millis)
        }
        other => panic!("unexpected action {:?}", other),
    };
    let expected = serialport::new("/dev/ttyACM7", 115_200).timeout(Duration::from_millis(10));
    assert_eq!(builder, expected);
    assert_ne!(builder, serialport::new("/dev/ttyACM7", 115_200));
    assert_ne!(builder, serialport::new("/dev/ttyACM0", 115_200).timeout(Duration::from_millis(10)));
    assert_ne!(builder, serialport::new("/dev/ttyACM7", 9_600).timeout(Duration::from_millis(10)));
}
