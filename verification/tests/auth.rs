use abus::connection::{auth_external_line, split_line};
use abus::{AuthAction, Authenticator, Connection, State};

fn send(a: &AuthAction) -> Option<&'static str> {
    match a {
        AuthAction::Send(s) => Some(s),
        _ => None,
    }
}

#[test]
fn auth_line_for_uid() {
    assert_eq!(auth_external_line(1000), b"AUTH EXTERNAL 31303030\r\n".to_vec());
    assert_eq!(auth_external_line(0), b"AUTH EXTERNAL 30\r\n".to_vec());
}

#[test]
fn splits_command_and_argument() {
    assert_eq!(split_line("OK 1234abcd\r\n"), ("OK", "1234abcd"));
    assert_eq!(split_line("REJECTED EXTERNAL DBUS_COOKIE_SHA1 "), ("REJECTED", "EXTERNAL DBUS_COOKIE_SHA1"));
    assert_eq!(split_line("AGREE_UNIX_FD\r\n"), ("AGREE_UNIX_FD", ""));
    assert_eq!(split_line(""), ("", ""));
    assert_eq!(split_line("DATA  x"), ("DATA", " x"));
}

#[test]
fn successful_handshake() {
    let mut a = Authenticator::new();
    assert_eq!(a.state_now(), State::WaitingForOK);
    let r = a.step("OK 0123456789abcdef\r\n");
    assert_eq!(send(&r), Some("NEGOTIATE_UNIX_FD\r\n"));
    assert_eq!(a.state_now(), State::WaitingForAgreeUnixFD);
    assert_eq!(a.server_guid(), "0123456789abcdef");
    match a.step("AGREE_UNIX_FD\r\n") {
        AuthAction::Begin { unix_fd_passing } => assert!(unix_fd_passing),
        other => panic!("unexpected {other:?}"),
    }
    let c = Connection::from_parts((), a.into_server_guid(), true);
    assert_eq!(c.server_guid(), "0123456789abcdef");
    assert!(c.unix_fd_passing());
}

#[test]
fn fd_passing_refused() {
    let mut a = Authenticator::new();
    a.step("OK abc");
    match a.step("ERROR not supported") {
        AuthAction::Begin { unix_fd_passing } => assert!(!unix_fd_passing),
        other => panic!("unexpected {other:?}"),
    }
}

#[test]
fn error_and_data_cancel() {
    let mut a = Authenticator::new();
    assert_eq!(send(&a.step("DATA abc")), Some("CANCEL\r\n"));
    assert_eq!(a.state_now(), State::WaitingForReject);
    match a.step("REJECTED EXTERNAL") {
        AuthAction::Rejected { available } => assert_eq!(available, "EXTERNAL"),
        other => panic!("unexpected {other:?}"),
    }
    let mut b = Authenticator::new();
    assert_eq!(send(&b.step("ERROR")), Some("CANCEL\r\n"));
    assert!(matches!(b.step("OK x"), AuthAction::Invalid));
    assert_eq!(b.state_now(), State::WaitingForReject);
}

#[test]
fn unknown_command_gets_error() {
    let mut a = Authenticator::new();
    assert_eq!(send(&a.step("HELLO")), Some("ERROR\r\n"));
    assert_eq!(a.state_now(), State::WaitingForOK);
    assert_eq!(a.server_guid(), "");
    let mut b = Authenticator::new();
    b.step("OK g");
    assert!(matches!(b.step("OK again"), AuthAction::Invalid));
    assert_eq!(State::WaitingForAgreeUnixFD.name(), "WaitingForAgreeUnixFD");
}

#[test]
fn handshake_starts_with_nul() {
    let mut expected = vec![0u8];
    expected.extend_from_slice(b"AUTH EXTERNAL 31303030\r\n");
    assert_eq!(abus::connection::handshake_start(1000), expected);
}

#[test]
fn connection_keeps_its_stream() {
    let mut c = Connection::from_parts(vec![1u8], "guid".to_string(), false);
    c.stream_mut().push(2);
    assert_eq!(c.stream_mut(), &vec![1u8, 2]);
    assert_eq!(c.server_guid(), "guid");
    assert!(!c.unix_fd_passing());
}

/// Runs the client's side over `lines` as a connection does: the lines it
/// writes, and the GUID and fd agreement where it opened.
fn run(lines: &[&str]) -> (Vec<String>, Option<(String, bool)>, usize) {
    let mut a = Authenticator::new();
    let mut writes = Vec::new();
    for (i, line) in lines.iter().enumerate() {
        match a.step(line) {
            AuthAction::Send(s) => writes.push(s.to_string()),
            AuthAction::Begin { unix_fd_passing } => {
                writes.push("BEGIN\r\n".to_string());
                let c = Connection::from_parts((), a.into_server_guid(), unix_fd_passing);
                return (writes, Some((c.server_guid().to_string(), c.unix_fd_passing())), i + 1);
            }
            AuthAction::Rejected { .. } | AuthAction::Invalid => return (writes, None, i + 1),
        }
    }
    (writes, None, lines.len())
}

#[test]
fn begin_is_written_once_and_last() {
    let (w, open, read) = run(&["DATA x", "REJECTED EXTERNAL", "OK g"]);
    assert_eq!(w, vec!["CANCEL\r\n"]);
    assert_eq!(open, None);
    assert_eq!(read, 2);

    let (w, open, read) = run(&["FOO", "OK 99aa\r\n", "ERROR no", "AGREE_UNIX_FD"]);
    assert_eq!(w, vec!["ERROR\r\n", "NEGOTIATE_UNIX_FD\r\n", "BEGIN\r\n"]);
    assert_eq!(open, Some(("99aa".to_string(), false)));
    assert_eq!(read, 3);

    let (w, open, _) = run(&["OK abc", "AGREE_UNIX_FD\r\n"]);
    assert_eq!(w.iter().filter(|l| l.as_str() == "BEGIN\r\n").count(), 1);
    assert_eq!(w.last().map(|s| s.as_str()), Some("BEGIN\r\n"));
    assert_eq!(open, Some(("abc".to_string(), true)));

    let (w, open, read) = run(&["OK abc", "DATA"]);
    assert_eq!(w, vec!["NEGOTIATE_UNIX_FD\r\n"]);
    assert_eq!(open, None);
    assert_eq!(read, 2);
}
