use bytes::BytesMut;

use ftp::status;
use ftp_server::buffer::{has_room, MAX_LENGTH};
use ftp_server::cmd::{Command, LineFault};
use ftp_server::codec::{find_crlf, FtpCodec, StringCodec};
use ftp_server::ftp::{Answer, ResultCode};

#[test]
fn a_line_is_taken_off_the_buffer() {
    let mut buf = BytesMut::from(&b"USER ferris\r\nPWD\r\nQU"[..]);
    let mut codec = FtpCodec;
    assert_eq!(find_crlf(&buf), Some(11));
    match codec.decode(&mut buf).unwrap() {
        Some(Command::User(name)) => assert_eq!(name, "ferris"),
        other => panic!("{:?}", other),
    }
    assert_eq!(&buf[..], b"PWD\r\nQU");
    assert!(matches!(codec.decode(&mut buf).unwrap(), Some(Command::Pwd)));
    assert_eq!(&buf[..], b"QU");
    assert!(codec.decode(&mut buf).unwrap().is_none());
    assert_eq!(&buf[..], b"QU");
    buf.extend(&b"IT\r\n"[..]);
    assert!(matches!(codec.decode(&mut buf).unwrap(), Some(Command::Quit)));
    assert!(buf.is_empty());
}

#[test]
fn line_ends() {
    assert_eq!(find_crlf(&BytesMut::from(&b""[..])), None);
    assert_eq!(find_crlf(&BytesMut::from(&b"\r"[..])), None);
    assert_eq!(find_crlf(&BytesMut::from(&b"\n\r"[..])), None);
    assert_eq!(find_crlf(&BytesMut::from(&b"\r\n"[..])), Some(0));
    assert_eq!(find_crlf(&BytesMut::from(&b"a\r\r\nb\r\n"[..])), Some(2));
    assert_eq!(find_crlf(&BytesMut::from(&b"a\nb\r\n"[..])), Some(3));
}

#[test]
fn an_empty_line_has_an_unknown_verb() {
    let mut buf = BytesMut::from(&b"\r\n"[..]);
    match FtpCodec.decode(&mut buf).unwrap() {
        Some(Command::Unknown(verb)) => assert_eq!(verb, ""),
        other => panic!("{:?}", other),
    }
}

#[test]
fn faults_are_found_before_a_line_is_read() {
    let codec = FtpCodec;
    assert_eq!(codec.fault(&BytesMut::from(&b"RETR"[..])), None);
    assert_eq!(codec.fault(&BytesMut::from(&b"RETR\r\n"[..])), Some(LineFault::NoParameter));
    assert_eq!(codec.fault(&BytesMut::from(&b"PWD\r\nRETR\r\n"[..])), None);
}

#[test]
fn replies() {
    let mut buf = BytesMut::from(&b"x"[..]);
    let mut codec = FtpCodec;
    codec.encode(Answer::new(ResultCode::CommandOkay, "Done"), &mut buf).unwrap();
    codec.encode(Answer::new(ResultCode::FileNotFound, ""), &mut buf).unwrap();
    codec.encode(Answer::new(ResultCode::UserloggedIn, "Welcome \u{e9}!"), &mut buf).unwrap();
    assert_eq!(&buf[..], "x200 Done\r\n550\r\n230 Welcome \u{e9}!\r\n".as_bytes());
}

#[test]
fn a_reply_is_one_line() {
    let mut buf = BytesMut::new();
    FtpCodec.encode(Answer::new(ResultCode::CommandOkay, "a\rb\n\r"), &mut buf).unwrap();
    assert_eq!(find_crlf(&buf), Some(buf.len() - 2));
}

#[test]
fn codes() {
    for (code, number) in [
        (ResultCode::DataConnectionAlreadyOpen, status::ALREADY_OPEN),
        (ResultCode::CommandOkay, status::COMMAND_OK),
        (ResultCode::ServiceReadyForNewUser, status::READY),
        (ResultCode::ServiceClosingControlConnection, status::CLOSING),
        (ResultCode::ClosingDataConnection, status::CLOSING_DATA_CONNECTION),
        (ResultCode::EnteringPassiveMode, status::PASSIVE_MODE),
        (ResultCode::UserloggedIn, status::LOGGED_IN),
        (ResultCode::RequestedFileActionOkay, status::REQUESTED_FILE_ACTION_OK),
        (ResultCode::PATHNAMECreated, status::PATH_CREATED),
        (ResultCode::ConnectionClosed, status::TRANSER_ABORTED),
        (ResultCode::LocalErrorInProcessing, status::ACTION_ABORTED),
        (ResultCode::UnknownCommand, status::BAD_COMMAND),
        (ResultCode::InvalidParameterOrArgument, status::BAD_ARGUMENTS),
        (ResultCode::CommandNotImplemented, status::NOT_IMPLEMENTED),
        (ResultCode::FileNotFound, status::FILE_UNAVAILABLE),
    ] {
        assert_eq!(code.number(), number);
    }
}

#[test]
fn data_reads_back() {
    let mut buf = BytesMut::new();
    let mut codec = StringCodec;
    assert!(codec.decode(&mut buf).unwrap().is_none());
    codec.encode("first \u{e9}\r\n".to_string(), &mut buf).unwrap();
    codec.encode("second".to_string(), &mut buf).unwrap();
    assert_eq!(&buf[..], "first \u{e9}\r\nsecond".as_bytes());
    assert_eq!(codec.decode(&mut buf).unwrap(), Some("first \u{e9}\r\nsecond".to_string()));
    assert_eq!(&buf[..], "first \u{e9}\r\nsecond".as_bytes());
}

#[test]
fn what_is_not_text_is_told_from_text() {
    assert!(StringCodec.is_text(&BytesMut::from(&b""[..])));
    assert!(StringCodec.is_text(&BytesMut::from("\u{e9}".as_bytes())));
    assert!(!StringCodec.is_text(&BytesMut::from(&b"\xe9"[..])));
}

#[test]
fn room_in_a_buffer() {
    let buf = BytesMut::from(&b"abc"[..]);
    assert!(has_room(&buf, MAX_LENGTH - 3));
    assert!(!has_room(&buf, MAX_LENGTH - 2));
    assert!(!has_room(&buf, usize::MAX));
    assert!(FtpCodec.has_room(&Answer::new(ResultCode::CommandOkay, "Done"), &buf));
    assert!(StringCodec.has_room(&"text".to_string(), &buf));
}

#[test]
fn lines_are_read_in_order_however_they_arrive() {
    let sent = b"USER ferris\r\nCWD src\r\nPWD\r\n";
    for cut in 0..sent.len() + 1 {
        let mut buf = BytesMut::from(&sent[..cut]);
        let mut verbs = vec![];
        while let Some(command) = FtpCodec.decode(&mut buf).unwrap() {
            verbs.push(command.as_ref().to_string());
        }
        buf.extend(&sent[cut..]);
        while let Some(command) = FtpCodec.decode(&mut buf).unwrap() {
            verbs.push(command.as_ref().to_string());
        }
        assert_eq!(verbs, ["USER", "CWD", "PWD"]);
    }
}

#[test]
fn replies_are_lines_in_order() {
    let mut buf = BytesMut::new();
    let messages = ["one", "", "t\rw\no", "three\r"];
    for message in messages {
        FtpCodec.encode(Answer::new(ResultCode::CommandOkay, message), &mut buf).unwrap();
    }
    for expected in ["200 one", "200", "200 t\rw\no", "200 three\r"] {
        let end = find_crlf(&buf).unwrap();
        assert_eq!(&buf.split_to(end + 2)[..end], expected.as_bytes());
    }
    assert!(buf.is_empty());
}

#[test]
fn data_in_pieces() {
    let (mut pieces, mut whole) = (BytesMut::new(), BytesMut::new());
    StringCodec.encode("a\u{e9}".to_string(), &mut pieces).unwrap();
    StringCodec.encode(String::new(), &mut pieces).unwrap();
    StringCodec.encode("\u{1f600}b".to_string(), &mut pieces).unwrap();
    StringCodec.encode("a\u{e9}\u{1f600}b".to_string(), &mut whole).unwrap();
    assert_eq!(pieces, whole);
}
