use std::str::FromStr;

use ftp_server::cmd::{to_uppercase, Command, LineFault, TransferType};
use ftp_server::text::{decimal, is_utf8, parse_byte, signed_decimal};

fn read(line: &[u8]) -> Command {
    assert_eq!(Command::fault(line), None);
    Command::new(line.to_vec()).unwrap()
}

fn faulty(line: &[u8]) -> LineFault {
    Command::fault(line).unwrap()
}

#[test]
fn verbs_without_parameter() {
    assert!(matches!(read(b"AUTH"), Command::Auth));
    assert!(matches!(read(b"AUTH TLS"), Command::Auth));
    assert!(matches!(read(b"PASV"), Command::Pasv));
    assert!(matches!(read(b"PWD"), Command::Pwd));
    assert!(matches!(read(b"QUIT"), Command::Quit));
    assert!(matches!(read(b"SYST"), Command::Syst));
    assert!(matches!(read(b"CDUP"), Command::CdUp));
}

#[test]
fn case_of_the_verb_makes_no_difference() {
    assert!(matches!(read(b"quit"), Command::Quit));
    assert!(matches!(read(b"CdUp"), Command::CdUp));
    match read(b"cwd Some/Dir") {
        Command::Cwd(directory) => assert_eq!(directory, "Some/Dir"),
        other => panic!("{:?}", other),
    }
}

#[test]
fn text_parameters() {
    match read(b"USER ferris") {
        Command::User(name) => assert_eq!(name, "ferris"),
        other => panic!("{:?}", other),
    }
    match read(b"USER") {
        Command::User(name) => assert_eq!(name, ""),
        other => panic!("{:?}", other),
    }
    match read(b"CWD") {
        Command::Cwd(directory) => assert_eq!(directory, ""),
        other => panic!("{:?}", other),
    }
    match read("CWD \u{e9}t\u{e9}".as_bytes()) {
        Command::Cwd(directory) => assert_eq!(directory, "\u{e9}t\u{e9}"),
        other => panic!("{:?}", other),
    }
}

#[test]
fn path_parameters() {
    match read(b"LIST") {
        Command::List(path) => assert!(path.is_none()),
        other => panic!("{:?}", other),
    }
    match read(b"LIST a/b") {
        Command::List(Some(path)) => assert_eq!(path.bytes(), b"a/b"),
        other => panic!("{:?}", other),
    }
    match read(b"LIST ") {
        Command::List(Some(path)) => assert_eq!(path.bytes(), b""),
        other => panic!("{:?}", other),
    }
    match read(b"RETR file.txt") {
        Command::Retr(path) => assert_eq!(path.bytes(), b"file.txt"),
        other => panic!("{:?}", other),
    }
    match read(b"STOR /tmp/x") {
        Command::Stor(path) => assert_eq!(path.bytes(), b"/tmp/x"),
        other => panic!("{:?}", other),
    }
}

#[test]
fn what_stands_behind_the_second_space_is_ignored() {
    match read(b"RETR my file.txt") {
        Command::Retr(path) => assert_eq!(path.bytes(), b"my"),
        other => panic!("{:?}", other),
    }
}

#[test]
fn port_is_computed_from_the_address() {
    match read(b"PORT 127,0,0,1,4,210") {
        Command::Port(port) => assert_eq!(port, 1234),
        other => panic!("{:?}", other),
    }
    match read(b"PORT 127,0,0,1,3,233") {
        Command::Port(port) => assert_eq!(port, 1001),
        other => panic!("{:?}", other),
    }
    match read(b"PORT 255,255,255,255,255,255") {
        Command::Port(port) => assert_eq!(port, 65535),
        other => panic!("{:?}", other),
    }
}

#[test]
fn pieces_of_an_address_that_are_no_numbers_are_passed_over() {
    match read(b"PORT x,127,,0,0,+1,300,4,0210") {
        Command::Port(port) => assert_eq!(port, 1234),
        other => panic!("{:?}", other),
    }
}

#[test]
fn transfer_types() {
    assert!(matches!(read(b"TYPE A"), Command::Type(TransferType::Ascii)));
    assert!(matches!(read(b"TYPE I"), Command::Type(TransferType::Image)));
    assert!(matches!(read(b"TYPE Image"), Command::Type(TransferType::Image)));
    assert_eq!(TransferType::from(b'A'), TransferType::Ascii);
    assert_eq!(TransferType::from(b'I'), TransferType::Image);
    assert_eq!(TransferType::from(b'a'), TransferType::Unknown);
}

#[test]
fn unknown_verbs() {
    for (line, verb) in [
        (&b"xyzzy now"[..], "XYZZY"),
        (&b"MKD dir"[..], "MKD"),
        (&b""[..], ""),
        (&b" PWD"[..], ""),
        (&b"\xff\xfe"[..], ""),
    ] {
        match read(line) {
            Command::Unknown(found) => assert_eq!(found, verb),
            other => panic!("{:?}", other),
        }
    }
}

#[test]
fn faults() {
    assert_eq!(faulty(b"CWD \xff"), LineFault::NotUtf8);
    assert_eq!(faulty(b"USER \xc3"), LineFault::NotUtf8);
    assert_eq!(faulty(b"LIST \xff"), LineFault::NotUtf8);
    assert_eq!(faulty(b"RETR \xff"), LineFault::NotUtf8);
    assert_eq!(faulty(b"RETR"), LineFault::NoParameter);
    assert_eq!(faulty(b"stor"), LineFault::NoParameter);
    assert_eq!(faulty(b"PORT"), LineFault::NoParameter);
    assert_eq!(faulty(b"PORT 1,2,3"), LineFault::InvalidAddress);
    assert_eq!(faulty(b"PORT 1,2,3,4,5,6,7"), LineFault::InvalidAddress);
    assert_eq!(faulty(b"PORT 1,2,3,4,5,256"), LineFault::InvalidAddress);
    assert_eq!(faulty(b"PORT 1,2,\xff,4,5,6"), LineFault::NotUtf8);
    assert_eq!(faulty(b"PORT 127,0,0,1,3,232"), LineFault::ReservedPort);
    assert_eq!(faulty(b"TYPE"), LineFault::NoParameter);
    assert_eq!(faulty(b"TYPE "), LineFault::EmptyParameter);
    assert_eq!(faulty(b"TYPE E"), LineFault::UnknownTransferType);
    assert_eq!(faulty(b"TYPE a"), LineFault::UnknownTransferType);
}

#[test]
fn a_command_has_its_verb() {
    for verb in [
        "AUTH", "CWD", "LIST", "PASV", "PWD", "QUIT", "SYST", "CDUP", "USER",
    ] {
        assert_eq!(read(verb.as_bytes()).as_ref(), verb);
    }
    assert_eq!(read(b"PORT 1,2,3,4,5,6").as_ref(), "PORT");
    assert_eq!(read(b"RETR x").as_ref(), "RETR");
    assert_eq!(read(b"STOR x").as_ref(), "STOR");
    assert_eq!(read(b"TYPE A").as_ref(), "TYPE");
    assert_eq!(read(b"HELP").as_ref(), "UNKN");
    assert_eq!(Command::NoOp.as_ref(), "NOOP");
    let path = ftp_server::path::UnixPath::new(b"x".to_vec());
    assert_eq!(Command::Mkd(path.clone()).as_ref(), "MKD");
    assert_eq!(Command::Rmd(path).as_ref(), "RMD");
}

#[test]
fn upper_case() {
    let mut data = b"azAZ09_`{\xe9".to_vec();
    to_uppercase(&mut data);
    assert_eq!(data, b"AZAZ09_`{\xe9");
    let once = data.clone();
    to_uppercase(&mut data);
    assert_eq!(data, once);
}

#[test]
fn numbers_are_read_as_by_the_standard_library() {
    let alphabet = b"+-01259 x";
    let mut texts: Vec<Vec<u8>> = vec![vec![]];
    let mut last = texts.clone();
    for _ in 0..4 {
        let mut next = vec![];
        for text in &last {
            for byte in alphabet {
                let mut longer = text.clone();
                longer.push(*byte);
                next.push(longer);
            }
        }
        texts.extend(next.iter().cloned());
        last = next;
    }
    for text in texts {
        let expected = u8::from_str(std::str::from_utf8(&text).unwrap()).ok();
        assert_eq!(parse_byte(&text), expected, "{:?}", text);
    }
}

#[test]
fn numerals() {
    for n in [0, 1, 9, 10, 99, 100, 255, 65535, u64::MAX] {
        assert_eq!(decimal(n), n.to_string());
    }
    for n in [0, 7, -1, -10, i32::MAX, i32::MIN] {
        assert_eq!(signed_decimal(n), n.to_string());
    }
}

#[test]
fn utf8() {
    assert!(is_utf8(b""));
    assert!(is_utf8("h\u{e9}llo \u{1f600}".as_bytes()));
    assert!(!is_utf8(b"\xed\xa0\x80"));
    assert!(!is_utf8(b"\xc0\x80"));
}
