use printer_protocol::catalog::{PrinterCommand, ResponsePolicy};
use printer_protocol::reader::{ReadError, ResponseReader};
use printer_protocol::session::{
    Awaiting, Exchange, Failure, Outcome, Session, SessionError, SessionState,
};

const RELEASE: &[u8] = b"~M602\r\n";

fn standard() -> ResponsePolicy {
    ResponsePolicy::Terminator { sequence: b"\r\nok\r\n".to_vec(), max_length: 1024 }
}

fn ok(text: &str) -> Result<String, ReadError> {
    Ok(String::from(text))
}

fn out_of_order() -> Failure {
    Failure { error: SessionError::OutOfOrder, release: None }
}

fn exchange(frame: &[u8]) -> Exchange {
    Exchange { frame: frame.to_vec(), policy: standard() }
}

/// A session that holds control, with the frames it sent so far.
fn in_control() -> (Session, Vec<Vec<u8>>) {
    let mut session = Session::new();
    let mut wire = Vec::new();
    assert_eq!(session.connect(), Ok(()));
    wire.push(session.acquire_control("S1").unwrap().frame);
    session.complete(ok("CMD M601 Received.\r\nControl Success.\r\nok\r\n")).unwrap();
    (session, wire)
}

/// A session in the middle of a transfer of `size` bytes.
fn transferring(size: u64) -> Session {
    let (mut session, _) = in_control();
    session.begin_transfer(size, "0:/user/part.gcode").unwrap();
    session.complete(ok("CMD M28 Received.\r\nok\r\n")).unwrap();
    session
}

fn count_release(wire: &[Vec<u8>]) -> usize {
    wire.iter().filter(|frame| frame.as_slice() == RELEASE).count()
}

#[test]
fn new_session_is_disconnected() {
    let session = Session::new();
    assert_eq!(session.state(), SessionState::Disconnected);
    assert_eq!(session.awaiting(), Awaiting::Nothing);
    assert_eq!(session.transfer(), None);
    assert!(!session.is_ready());
    assert!(!session.is_streaming());
    assert!(!session.may_hold_control());
    assert!(session.may_close());
}

#[test]
fn connect_once() {
    let mut session = Session::new();
    assert_eq!(session.connect(), Ok(()));
    assert_eq!(session.state(), SessionState::Connected);
    assert_eq!(session.connect(), Err(out_of_order()));
    assert_eq!(session.state(), SessionState::Connected);
}

#[test]
fn whole_session_sends_the_expected_bytes() {
    let mut wire: Vec<u8> = Vec::new();
    let mut session = Session::new();
    session.connect().unwrap();

    let step = session.acquire_control("S1").unwrap();
    assert_eq!(step, exchange(b"~M601 S1\r\n"));
    wire.extend_from_slice(&step.frame);
    assert_eq!(session.state(), SessionState::Connected);
    assert_eq!(session.awaiting(), Awaiting::Acquire);
    assert!(session.may_hold_control());
    assert_eq!(
        session.complete(ok("CMD M601 Received.\r\nControl Success.\r\nok\r\n")),
        Ok(String::from("CMD M601 Received.\r\nControl Success.\r\nok\r\n"))
    );
    assert_eq!(session.state(), SessionState::ControlAcquired);
    assert!(session.is_ready());

    let step = session.invoke(PrinterCommand::MachineStatus, None).unwrap();
    assert_eq!(step, exchange(b"~M119\r\n"));
    wire.extend_from_slice(&step.frame);
    assert_eq!(session.awaiting(), Awaiting::Invoke);
    assert_eq!(session.complete(ok("status\r\nok\r\n")), Ok(String::from("status\r\nok\r\n")));
    assert_eq!(session.state(), SessionState::Idle);

    let file = b"G28\nG1 X10 Y10\n~M602\r\n";
    let step = session.begin_transfer(file.len() as u64, "0:/user/part.gcode").unwrap();
    assert_eq!(step, exchange(b"~M28 22 0:/user/part.gcode\r\n"));
    wire.extend_from_slice(&step.frame);
    assert_eq!(session.state(), SessionState::Idle);
    assert_eq!(session.awaiting(), Awaiting::Metadata);
    assert_eq!(session.transfer(), None);
    session.complete(ok("CMD M28 Received.\r\nok\r\n")).unwrap();
    assert_eq!(session.state(), SessionState::Transferring);
    assert!(session.is_streaming());
    {
        let handle = session.transfer().unwrap();
        assert_eq!(handle.declared_size(), 22);
        assert_eq!(handle.streamed(), 0);
        assert_eq!(handle.remote_path(), "0:/user/part.gcode");
    }
    for chunk in file.chunks(5) {
        let passed = session.stream(chunk).unwrap();
        assert_eq!(passed, chunk);
        wire.extend_from_slice(passed);
    }
    assert_eq!(session.transfer().unwrap().streamed(), 22);
    let step = session.finish_transfer().unwrap();
    assert_eq!(step, exchange(b"~M29\r\n"));
    wire.extend_from_slice(&step.frame);
    assert_eq!(session.state(), SessionState::Transferring);
    assert_eq!(session.awaiting(), Awaiting::Finalize);
    assert_eq!(session.transfer(), None);
    session.complete(ok("CMD M29 Received.\r\nok\r\n")).unwrap();
    assert_eq!(session.state(), SessionState::Idle);

    let step = session.invoke(PrinterCommand::OpenFile, Some("0:/user/part.gcode")).unwrap();
    wire.extend_from_slice(&step.frame);
    session.complete(ok("ok\r\n")).unwrap();
    let step = session.invoke(PrinterCommand::Unknown2, None).unwrap();
    wire.extend_from_slice(&step.frame);
    session.complete(ok("ok\r\n")).unwrap();

    assert!(!session.may_close());
    let step = session.release_control().unwrap();
    assert_eq!(step, exchange(RELEASE));
    wire.extend_from_slice(&step.frame);
    assert_eq!(session.awaiting(), Awaiting::Release);
    assert!(!session.may_close());
    session.complete(ok("CMD M602 Received.\r\nControl Release.\r\nok\r\n")).unwrap();
    assert_eq!(session.state(), SessionState::Released(Outcome::Success));
    assert!(session.may_close());

    let mut expected: Vec<u8> = Vec::new();
    expected.extend_from_slice(b"~M601 S1\r\n~M119\r\n~M28 22 0:/user/part.gcode\r\n");
    expected.extend_from_slice(file);
    expected.extend_from_slice(b"~M29\r\n~M23 0:/user/part.gcode\r\n~M26\r\n~M602\r\n");
    assert_eq!(wire, expected);
}

#[test]
fn nothing_but_acquire_from_connected() {
    let mut session = Session::new();
    session.connect().unwrap();
    assert_eq!(session.invoke(PrinterCommand::MachineStatus, None), Err(out_of_order()));
    assert_eq!(session.release_control(), Err(out_of_order()));
    assert_eq!(session.begin_transfer(1, "p"), Err(out_of_order()));
    assert_eq!(session.stream(b"abc"), Err(out_of_order()));
    assert_eq!(session.finish_transfer(), Err(out_of_order()));
    assert_eq!(session.complete(ok("\r\nok\r\n")), Err(out_of_order()));
    assert_eq!(session.abort(), None);
    assert_eq!(session.state(), SessionState::Connected);
    assert_eq!(session.awaiting(), Awaiting::Nothing);
    assert!(session.may_close());
}

#[test]
fn nothing_goes_out_before_connect() {
    let mut session = Session::new();
    assert_eq!(session.acquire_control("S1"), Err(out_of_order()));
    assert_eq!(session.invoke(PrinterCommand::MachineStatus, None), Err(out_of_order()));
    assert_eq!(session.release_control(), Err(out_of_order()));
    assert_eq!(session.begin_transfer(1, "p"), Err(out_of_order()));
    assert_eq!(session.complete(Err(ReadError::TransportError)), Err(out_of_order()));
    assert_eq!(session.abort(), None);
    assert_eq!(session.state(), SessionState::Disconnected);
}

#[test]
fn one_command_in_flight_at_a_time() {
    let (mut session, _) = in_control();
    session.invoke(PrinterCommand::MachineTemps, None).unwrap();
    assert_eq!(session.invoke(PrinterCommand::MachineStatus, None), Err(out_of_order()));
    assert_eq!(session.release_control(), Err(out_of_order()));
    assert_eq!(session.begin_transfer(1, "p"), Err(out_of_order()));
    assert_eq!(session.acquire_control("S1"), Err(out_of_order()));
    assert_eq!(session.awaiting(), Awaiting::Invoke);
    assert_eq!(session.state(), SessionState::ControlAcquired);

    let mut asking = Session::new();
    asking.connect().unwrap();
    asking.acquire_control("S1").unwrap();
    assert_eq!(asking.acquire_control("S1"), Err(out_of_order()));
    assert_eq!(asking.invoke(PrinterCommand::MachineStatus, None), Err(out_of_order()));
}

#[test]
fn invoke_sends_queries_and_print_control_only() {
    for name in [
        PrinterCommand::GainControl,
        PrinterCommand::ReleaseControl,
        PrinterCommand::SendFile,
        PrinterCommand::SaveFile,
    ] {
        let (mut session, _) = in_control();
        assert_eq!(session.invoke(name, None), Err(out_of_order()));
        assert!(session.is_ready());
    }
    let allowed: [(PrinterCommand, &[u8]); 10] = [
        (PrinterCommand::MachineStatus, b"~M119\r\n"),
        (PrinterCommand::MachineTemps, b"~M105\r\n"),
        (PrinterCommand::PositionInfo, b"~M114\r\n"),
        (PrinterCommand::MachineInfo, b"~M115\r\n"),
        (PrinterCommand::PrintResume, b"~M24\r\n"),
        (PrinterCommand::PrintPause, b"~M25\r\n"),
        (PrinterCommand::PrintStatus, b"~M27\r\n"),
        (PrinterCommand::OpenFile, b"~M23\r\n"),
        (PrinterCommand::Unknown1, b"~M650\r\n"),
        (PrinterCommand::Unknown2, b"~M26\r\n"),
    ];
    for (name, frame) in allowed {
        let (mut session, _) = in_control();
        assert_eq!(session.invoke(name, None), Ok(exchange(frame)));
    }
}

#[test]
fn failed_invoke_releases_exactly_once() {
    let errors = [
        ReadError::TransportError,
        ReadError::OversizedResponse,
        ReadError::TruncatedResponse,
        ReadError::EncodingError { raw: vec![0xff] },
    ];
    for (failing, error) in errors.into_iter().enumerate() {
        let (mut session, mut wire) = in_control();
        for _ in 0..failing {
            wire.push(session.invoke(PrinterCommand::MachineStatus, None).unwrap().frame);
            session.complete(ok("fine\r\nok\r\n")).unwrap();
        }
        wire.push(session.invoke(PrinterCommand::MachineTemps, None).unwrap().frame);
        assert_eq!(count_release(&wire), 0);
        let failure = match &error {
            ReadError::TransportError => session.complete(Err(ReadError::TransportError)),
            ReadError::OversizedResponse => session.complete(Err(ReadError::OversizedResponse)),
            ReadError::TruncatedResponse => session.complete(Err(ReadError::TruncatedResponse)),
            ReadError::EncodingError { raw } => {
                session.complete(Err(ReadError::EncodingError { raw: raw.clone() }))
            }
        }
        .unwrap_err();
        assert_eq!(failure.error, SessionError::Read(error));
        assert_eq!(failure.release, Some(RELEASE.to_vec()));
        wire.extend(failure.release);
        assert_eq!(session.state(), SessionState::Released(Outcome::Failed));
        assert!(session.may_close());

        assert_eq!(session.invoke(PrinterCommand::MachineStatus, None), Err(out_of_order()));
        assert_eq!(session.release_control(), Err(out_of_order()));
        assert_eq!(session.complete(Err(ReadError::TransportError)), Err(out_of_order()));
        assert_eq!(session.acquire_control("S1"), Err(out_of_order()));
        assert_eq!(session.begin_transfer(3, "p"), Err(out_of_order()));
        assert_eq!(session.connect(), Err(out_of_order()));
        assert_eq!(session.abort(), None);
        assert_eq!(session.state(), SessionState::Released(Outcome::Failed));
        assert_eq!(count_release(&wire), 1);
    }
}

#[test]
fn control_denied_when_the_reply_lacks_the_ok_line() {
    let mut session = Session::new();
    session.connect().unwrap();
    session.acquire_control("S1").unwrap();
    let failure = session.complete(ok("CMD M601 Received.\r\nControl failed.\r\n")).unwrap_err();
    assert_eq!(
        failure,
        Failure {
            error: SessionError::ControlDenied {
                reply: Ok(String::from("CMD M601 Received.\r\nControl failed.\r\n")),
            },
            release: Some(RELEASE.to_vec()),
        }
    );
    assert_eq!(session.state(), SessionState::Released(Outcome::Failed));
    assert_eq!(session.acquire_control("S1"), Err(out_of_order()));
}

#[test]
fn control_denied_when_the_reply_cannot_be_read() {
    let mut session = Session::new();
    session.connect().unwrap();
    session.acquire_control("S1").unwrap();
    let failure = session.complete(Err(ReadError::EncodingError { raw: vec![0x80, 0x81] }));
    assert_eq!(
        failure,
        Err(Failure {
            error: SessionError::ControlDenied {
                reply: Err(ReadError::EncodingError { raw: vec![0x80, 0x81] }),
            },
            release: Some(RELEASE.to_vec()),
        })
    );
    assert_eq!(session.state(), SessionState::Released(Outcome::Failed));
}

#[test]
fn acknowledgement_is_the_ok_line_at_the_end() {
    for reply in ["ok\r\n", "ok", "\r\nok\r\n ", "\r\nOK\r\n", ""] {
        let mut session = Session::new();
        session.connect().unwrap();
        session.acquire_control("S1").unwrap();
        assert!(session.complete(ok(reply)).is_err(), "{:?}", reply);
    }
    for reply in ["\r\nok\r\n", "x\r\nok\r\n", "\r\nok\r\n\r\nok\r\n"] {
        let mut session = Session::new();
        session.connect().unwrap();
        session.acquire_control("S1").unwrap();
        assert_eq!(session.complete(ok(reply)), Ok(String::from(reply)));
        assert_eq!(session.state(), SessionState::ControlAcquired);
    }
}

#[test]
fn failed_release_is_not_repeated() {
    let (mut session, mut wire) = in_control();
    wire.push(session.release_control().unwrap().frame);
    let failure = session.complete(Err(ReadError::TruncatedResponse)).unwrap_err();
    assert_eq!(
        failure,
        Failure { error: SessionError::Read(ReadError::TruncatedResponse), release: None }
    );
    assert_eq!(session.state(), SessionState::Released(Outcome::Failed));
    assert_eq!(count_release(&wire), 1);
}

#[test]
fn abort_releases_when_control_may_be_held() {
    let (mut held, _) = in_control();
    assert_eq!(held.abort(), Some(RELEASE.to_vec()));
    assert_eq!(held.state(), SessionState::Released(Outcome::Failed));
    assert_eq!(held.abort(), None);

    let mut asking = Session::new();
    asking.connect().unwrap();
    asking.acquire_control("S1").unwrap();
    assert_eq!(asking.abort(), Some(RELEASE.to_vec()));
    assert_eq!(asking.state(), SessionState::Released(Outcome::Failed));

    let (mut busy, _) = in_control();
    busy.invoke(PrinterCommand::PrintPause, None).unwrap();
    assert_eq!(busy.abort(), Some(RELEASE.to_vec()));
    assert_eq!(busy.awaiting(), Awaiting::Nothing);

    let (mut releasing, _) = in_control();
    releasing.release_control().unwrap();
    assert_eq!(releasing.abort(), None);
    assert_eq!(releasing.state(), SessionState::Released(Outcome::Failed));

    let mut sending = transferring(10);
    sending.stream(b"abc").unwrap();
    assert_eq!(sending.abort(), Some(RELEASE.to_vec()));
    assert_eq!(sending.state(), SessionState::Released(Outcome::Failed));
    assert_eq!(sending.transfer(), None);
    assert_eq!(sending.stream(b"abc"), Err(out_of_order()));
}

#[test]
fn transfer_writes_exactly_the_declared_bytes() {
    let file: Vec<u8> = (0..=255u8).cycle().take(1000).collect();
    for size in [1usize, 7, 64, 999, 1000, 4096] {
        let mut session = transferring(1000);
        let mut written: Vec<u8> = Vec::new();
        for chunk in file.chunks(size) {
            written.extend_from_slice(session.stream(chunk).unwrap());
        }
        assert_eq!(written, file);
        assert_eq!(session.transfer().unwrap().streamed(), 1000);
        assert_eq!(session.finish_transfer(), Ok(exchange(b"~M29\r\n")));
    }
}

#[test]
fn transfer_stops_at_the_declared_size() {
    let mut session = transferring(5);
    assert_eq!(session.stream(b"abc"), Ok(&b"abc"[..]));
    assert_eq!(session.stream(b"defgh"), Ok(&b"de"[..]));
    assert_eq!(session.stream(b"ijk"), Ok(&b""[..]));
    assert_eq!(session.transfer().unwrap().streamed(), 5);
    assert_eq!(session.finish_transfer(), Ok(exchange(b"~M29\r\n")));
}

#[test]
fn short_source_fails_and_withholds_the_closing_frame() {
    let mut session = transferring(10);
    assert_eq!(session.stream(b"abcdefghi"), Ok(&b"abcdefghi"[..]));
    assert_eq!(
        session.finish_transfer(),
        Err(Failure { error: SessionError::ShortRead, release: Some(RELEASE.to_vec()) })
    );
    assert_eq!(session.state(), SessionState::Released(Outcome::Failed));
    assert_eq!(session.transfer(), None);
    assert_eq!(session.finish_transfer(), Err(out_of_order()));
}

#[test]
fn empty_file_transfers() {
    let mut session = transferring(0);
    assert_eq!(session.stream(b""), Ok(&b""[..]));
    assert_eq!(session.stream(b"x"), Ok(&b""[..]));
    assert_eq!(session.finish_transfer(), Ok(exchange(b"~M29\r\n")));
    assert_eq!(session.complete(ok("\r\nok\r\n")), Ok(String::from("\r\nok\r\n")));
    assert_eq!(session.state(), SessionState::Idle);
}

#[test]
fn refused_announcement_does_not_start_the_transfer() {
    let (mut session, _) = in_control();
    session.begin_transfer(3, "0:/user/a.gcode").unwrap();
    assert_eq!(session.stream(b"abc"), Err(out_of_order()));
    assert_eq!(session.finish_transfer(), Err(out_of_order()));
    let failure = session.complete(Err(ReadError::OversizedResponse)).unwrap_err();
    assert_eq!(
        failure,
        Failure {
            error: SessionError::Read(ReadError::OversizedResponse),
            release: Some(RELEASE.to_vec()),
        }
    );
    assert_eq!(session.state(), SessionState::Released(Outcome::Failed));
    assert_eq!(session.stream(b"abc"), Err(out_of_order()));
}

#[test]
fn failed_closing_frame_releases() {
    let mut session = transferring(1);
    session.stream(b"x").unwrap();
    session.finish_transfer().unwrap();
    assert_eq!(session.stream(b"y"), Err(out_of_order()));
    assert_eq!(session.invoke(PrinterCommand::OpenFile, Some("f")), Err(out_of_order()));
    let failure = session.complete(Err(ReadError::TransportError)).unwrap_err();
    assert_eq!(failure.release, Some(RELEASE.to_vec()));
    assert_eq!(session.state(), SessionState::Released(Outcome::Failed));
}

#[test]
fn commands_wait_for_the_transfer_to_end() {
    let mut session = transferring(4);
    assert_eq!(session.invoke(PrinterCommand::MachineStatus, None), Err(out_of_order()));
    assert_eq!(session.release_control(), Err(out_of_order()));
    assert_eq!(session.begin_transfer(1, "p"), Err(out_of_order()));
    assert_eq!(session.complete(ok("\r\nok\r\n")), Err(out_of_order()));
    assert_eq!(session.state(), SessionState::Transferring);
    assert!(session.is_streaming());
    assert!(!session.may_close());
}

#[test]
fn announcement_carries_size_and_path() {
    let sizes: [(u64, &[u8]); 4] = [
        (0, b"~M28 0 0:/user/a b.gcode\r\n"),
        (9, b"~M28 9 0:/user/a b.gcode\r\n"),
        (1234567890, b"~M28 1234567890 0:/user/a b.gcode\r\n"),
        (u64::MAX, b"~M28 18446744073709551615 0:/user/a b.gcode\r\n"),
    ];
    for (size, frame) in sizes {
        let (mut session, _) = in_control();
        assert_eq!(session.begin_transfer(size, "0:/user/a b.gcode"), Ok(exchange(frame)));
    }
}

#[test]
fn a_second_transfer_starts_afresh() {
    let mut session = transferring(2);
    session.stream(b"ab").unwrap();
    session.finish_transfer().unwrap();
    session.complete(ok("\r\nok\r\n")).unwrap();
    session.begin_transfer(3, "0:/user/second.gcode").unwrap();
    session.complete(ok("\r\nok\r\n")).unwrap();
    let handle = session.transfer().unwrap();
    assert_eq!(handle.declared_size(), 3);
    assert_eq!(handle.streamed(), 0);
    assert_eq!(handle.remote_path(), "0:/user/second.gcode");
}

#[test]
fn session_and_reader_work_together() {
    let (mut session, _) = in_control();
    let step = session.invoke(PrinterCommand::MachineTemps, None).unwrap();
    assert_eq!(step.frame, b"~M105\r\n".to_vec());
    let mut reader = ResponseReader::new(step.policy);
    for byte in b"CMD M105 Received.\r\nT0:21/0 B:20/0\r\nok\r\n" {
        reader.feed(&[*byte]);
    }
    let response = session.complete(reader.finish().unwrap());
    assert_eq!(response, Ok(String::from("CMD M105 Received.\r\nT0:21/0 B:20/0\r\nok\r\n")));

    let step = session.invoke(PrinterCommand::MachineStatus, None).unwrap();
    let mut reader = ResponseReader::new(step.policy);
    reader.feed(&vec![b'?'; 2000]);
    let failure = session.complete(reader.finish().unwrap()).unwrap_err();
    assert_eq!(
        failure,
        Failure {
            error: SessionError::Read(ReadError::OversizedResponse),
            release: Some(RELEASE.to_vec()),
        }
    );
}
