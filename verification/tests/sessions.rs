use std::io::ErrorKind;

use bytes::BytesMut;

use ftp::status;
use ftp_server::client::{Action, Client, Event, PathError};
use ftp_server::cmd::{Command, TransferType};
use ftp_server::codec::{find_crlf, FtpCodec};
use ftp_server::listing::{FileInfo, LocalTime};
use ftp_server::path::UnixPath;

fn path(text: &str) -> UnixPath {
    UnixPath::new(text.as_bytes().to_vec())
}

fn text(path: &UnixPath) -> String {
    String::from_utf8(path.bytes().to_vec()).unwrap()
}

/// An action in a line of text.
fn show(action: &Action) -> String {
    match action {
        Action::Send(answer) => format!("send {} {}", answer.code.number(), answer.message),
        Action::Canonicalize(p) => format!("canonicalize {}", text(p)),
        Action::CheckDir(p) => format!("check dir {}", text(p)),
        Action::CheckFile(p) => format!("check file {}", text(p)),
        Action::CreateDir(p) => format!("create dir {}", text(p)),
        Action::RemoveDir(p) => format!("remove dir {}", text(p)),
        Action::ReadFile(p) => format!("read file {}", text(p)),
        Action::ReadDir(p) => format!("read dir {}", text(p)),
        Action::Inspect(p) => format!("inspect {}", text(p)),
        Action::SendData(data) => format!("send data {}", data),
        Action::Bind(port) => format!("bind {}", port),
        Action::Accept => "accept".to_string(),
        Action::ReceiveData => "receive data".to_string(),
        Action::WriteFile(p, data) => format!("write file {} {}", text(p), data),
        Action::CloseControl => "close control".to_string(),
        Action::Done => "done".to_string(),
    }
}

/// The actions of a request with the given outcomes.
fn run(client: &mut Client, command: Command, events: Vec<Event>) -> Vec<String> {
    assert!(client.is_ready(&command));
    let mut actions = vec![show(&client.handle_cmd(command))];
    for event in events {
        assert!(client.is_expecting(&event));
        actions.push(show(&client.resume(event)));
    }
    actions
}

fn session() -> Client {
    Client::new(path("/srv"))
}

/// A session with a data connection.
fn connected() -> Client {
    let mut client = session();
    run(
        &mut client,
        Command::Pasv,
        vec![Event::Bound(2000), Event::Sent, Event::Connected(true)],
    );
    client
}

fn found(place: &str) -> Event {
    Event::Canonical(Ok(path(place)))
}

fn gone() -> Event {
    Event::Canonical(Err(ErrorKind::NotFound.into()))
}

fn cwd(client: &mut Client, directory: &str, place: &str) -> Vec<String> {
    run(client, Command::Cwd(directory.to_string()), vec![found(place), Event::Sent])
}

fn pwd(client: &mut Client) -> String {
    run(client, Command::Pwd, vec![Event::Sent])[0].clone()
}

fn file(name: &str, is_dir: bool) -> FileInfo {
    FileInfo {
        path: path(name),
        is_dir,
        readonly: false,
        time: LocalTime { month: 11, day: 24, hour: 18, minute: 30 },
        size: 5,
    }
}

/// A client that talks to a session through the codec, with a directory `src` below the root.
struct Dialogue {
    client: Client,
    input: BytesMut,
}

impl Dialogue {
    fn new() -> (Dialogue, u32) {
        let mut output = BytesMut::new();
        FtpCodec.encode(Client::greeting(), &mut output).unwrap();
        let dialogue = Dialogue { client: Client::new(path("/home/ferris")), input: BytesMut::new() };
        (dialogue, reply(&output).0)
    }

    fn request(&mut self, line: &str) -> (u32, String) {
        self.input.extend(line.as_bytes());
        assert_eq!(FtpCodec.fault(&self.input), None);
        let command = FtpCodec.decode(&mut self.input).unwrap().unwrap();
        let mut output = BytesMut::new();
        let mut action = self.client.handle_cmd(command);
        loop {
            let event = match action {
                Action::Send(answer) => {
                    FtpCodec.encode(answer, &mut output).unwrap();
                    Event::Sent
                }
                Action::Canonicalize(place) => match text(&place).as_str() {
                    "/home/ferris" | "/home/ferris/src" => Event::Canonical(Ok(place)),
                    _ => gone(),
                },
                Action::CloseControl => Event::Closed,
                Action::Done => break,
                other => panic!("{:?}", other),
            };
            assert!(self.client.is_expecting(&event));
            action = self.client.resume(event);
        }
        reply(&output)
    }

    /// The working directory as a client reads it off the reply.
    fn pwd(&mut self) -> String {
        let (code, line) = self.request("PWD\r\n");
        assert_eq!(code, status::PATH_CREATED);
        let (begin, end) = (line.find('"').unwrap(), line.rfind('"').unwrap());
        line[begin + 1..end].to_string()
    }
}

fn reply(output: &BytesMut) -> (u32, String) {
    assert_eq!(find_crlf(output), Some(output.len() - 2));
    let line = String::from_utf8(output.to_vec()).unwrap();
    (line[..3].parse().unwrap(), line)
}

#[test]
fn test_pwd() {
    let (mut ftp, greeting) = Dialogue::new();
    assert_eq!(greeting, status::READY);

    let pwd = ftp.pwd();
    assert_eq!("/", pwd);

    assert_eq!(ftp.request("USER ferris\r\n").0, status::LOGGED_IN);

    assert_eq!(ftp.request("CWD src\r\n").0, status::REQUESTED_FILE_ACTION_OK);
    let pwd = ftp.pwd();
    assert_eq!("/src", pwd);

    let code = ftp.request("CDUP\r\n").0;
    assert!(code == status::COMMAND_OK || code == status::REQUESTED_FILE_ACTION_OK);
    let pwd = ftp.pwd();
    assert_eq!("/", pwd);

    assert_eq!(ftp.request("QUIT\r\n").0, status::CLOSING);
}

#[test]
fn greeting() {
    let answer = Client::greeting();
    assert_eq!(answer.code.number(), 220);
    assert_eq!(answer.message, "Welcome to this FTP server!");
}

#[test]
fn requests_that_are_answered_at_once() {
    let mut client = session();
    let sent = || vec![Event::Sent];
    assert_eq!(run(&mut client, Command::Auth, sent()), ["send 502 Not implemented", "done"]);
    assert_eq!(run(&mut client, Command::Syst, sent()), ["send 200 I won't tell!", "done"]);
    assert_eq!(run(&mut client, Command::NoOp, sent()), ["send 200 Doing nothing", "done"]);
    assert_eq!(
        run(&mut client, Command::Type(TransferType::Image), sent()),
        ["send 200 Transfer type changed successfully", "done"]
    );
    assert_eq!(
        run(&mut client, Command::Unknown("XYZZY".to_string()), sent()),
        ["send 500 \"XYZZY\": Not implemented", "done"]
    );
    assert_eq!(
        run(&mut client, Command::User("ferris".to_string()), sent()),
        ["send 230 Welcome ferris!", "done"]
    );
    assert_eq!(
        run(&mut client, Command::User(String::new()), sent()),
        ["send 501 Invalid username", "done"]
    );
    assert_eq!(
        run(&mut client, Command::Port(1234), sent()),
        ["send 200 Data port is now 1234", "done"]
    );
}

#[test]
fn working_directory() {
    let mut client = session();
    assert_eq!(pwd(&mut client), "send 257 \"/\" ");
    assert_eq!(
        cwd(&mut client, "pub", "/srv/pub"),
        ["canonicalize /srv/pub", "send 250 Directory changed to \"pub\"", "done"]
    );
    assert_eq!(pwd(&mut client), "send 257 \"/pub\" ");
    assert_eq!(cwd(&mut client, "a/../b", "/srv/pub/b")[0], "canonicalize /srv/pub/a/../b");
    assert_eq!(pwd(&mut client), "send 257 \"/pub/b\" ");
    assert_eq!(cwd(&mut client, "/x//./y", "/srv/x/y")[0], "canonicalize /srv/x/y");
    assert_eq!(pwd(&mut client), "send 257 \"/x/y\" ");
    assert_eq!(cwd(&mut client, "/", "/srv")[0], "canonicalize /srv/");
    assert_eq!(pwd(&mut client), "send 257 \"/\" ");
}

#[test]
fn the_working_directory_never_climbs() {
    let mut client = session();
    cwd(&mut client, "a/../b", "/srv/b");
    cwd(&mut client, "../c/d", "/srv/c/d");
    assert_eq!(pwd(&mut client), "send 257 \"/c/d\" ");
    run(&mut client, Command::CdUp, vec![Event::Sent]);
    assert_eq!(pwd(&mut client), "send 257 \"/c\" ");
    run(&mut client, Command::Cwd("../..".to_string()), vec![found("/"), Event::Sent]);
    assert_eq!(pwd(&mut client), "send 257 \"/c\" ");
}

#[test]
fn directories_outside_are_refused() {
    let mut client = session();
    cwd(&mut client, "pub", "/srv/pub");
    for event in [found("/etc"), found("/srv2"), found("/"), gone()] {
        assert_eq!(
            run(&mut client, Command::Cwd("x".to_string()), vec![event, Event::Sent]),
            ["canonicalize /srv/pub/x", "send 550 No such file or directory", "done"]
        );
        assert_eq!(pwd(&mut client), "send 257 \"/pub\" ");
    }
}

#[test]
fn places_are_checked() {
    let client = session();
    assert_eq!(text(&client.check_path(Ok(path("/srv/a"))).unwrap()), "/srv/a");
    assert!(matches!(
        client.check_path(Ok(path("/etc"))).unwrap_err(),
        PathError::PermissionDenied
    ));
    for kind in [ErrorKind::NotFound, ErrorKind::PermissionDenied, ErrorKind::InvalidInput] {
        match client.check_path(Err(kind.into())).unwrap_err() {
            PathError::Io(error) => assert_eq!(error.kind(), kind),
            other => panic!("{:?}", other),
        }
    }
    assert_eq!(text(&client.complete_path(path("/a/b"))), "/srv/a/b");
    assert_eq!(text(&client.complete_path(path("a/b"))), "/srv/a/b");
}

#[test]
fn going_up() {
    let mut client = session();
    cwd(&mut client, "a/b", "/srv/a/b");
    for shown in ["send 257 \"/a\" ", "send 257 \"/\" ", "send 257 \"/\" "] {
        assert_eq!(run(&mut client, Command::CdUp, vec![Event::Sent]), ["send 200 Done", "done"]);
        assert_eq!(pwd(&mut client), shown);
    }
}

#[test]
fn a_working_directory_that_is_not_text_is_not_shown() {
    let mut client = session();
    let place = UnixPath::new(b"/srv/\xff".to_vec());
    run(
        &mut client,
        Command::Cwd("link".to_string()),
        vec![Event::Canonical(Ok(place)), Event::Sent],
    );
    assert_eq!(pwd(&mut client), "send 550 No such file or directory");
}

#[test]
fn data_connections() {
    let mut client = session();
    assert_eq!(
        run(
            &mut client,
            Command::Pasv,
            vec![Event::Bound(1234), Event::Sent, Event::Connected(true)]
        ),
        ["bind 0", "send 227 127,0,0,1,4,210", "accept", "done"]
    );
    assert!(client.has_data_connection());
    assert_eq!(
        run(&mut client, Command::Pasv, vec![Event::Sent]),
        ["send 125 Already listening...", "done"]
    );
    assert!(!session().has_data_connection());
}

#[test]
fn a_client_cannot_make_a_reply_of_two_lines() {
    let mut client = session();
    for line in [&b"US\rER a"[..], b"USER a\rb", b"USER \n\r", b"USER a\n", b"\r", b"PORT\r 1"] {
        assert_eq!(Command::fault(line), None);
        let command = Command::new(line.to_vec()).unwrap();
        match client.handle_cmd(command) {
            Action::Send(answer) => {
                let mut output = BytesMut::new();
                FtpCodec.encode(answer, &mut output).unwrap();
                assert_eq!(find_crlf(&output), Some(output.len() - 2));
            }
            other => panic!("{:?}", other),
        }
        client.resume(Event::Sent);
    }
}

#[test]
fn a_port_that_is_given_up_leaves_no_data_connection() {
    let mut client = session();
    run(
        &mut client,
        Command::Pasv,
        vec![Event::Bound(1234), Event::Sent, Event::Connected(false)],
    );
    assert!(!client.has_data_connection());
    assert!(client.is_ready(&Command::Quit));
}

#[test]
fn the_named_port_is_listened_on() {
    let mut client = session();
    run(&mut client, Command::Port(4321), vec![Event::Sent]);
    assert_eq!(show(&client.handle_cmd(Command::Pasv)), "bind 4321");
}

#[test]
fn the_address_of_a_port_reads_back() {
    for port in [1001, 1024, 4321, 65535] {
        let mut client = session();
        client.handle_cmd(Command::Pasv);
        match client.resume(Event::Bound(port)) {
            Action::Send(answer) => {
                let line = format!("PORT {}", answer.message);
                match Command::new(line.into_bytes()).unwrap() {
                    Command::Port(found) => assert_eq!(found, port),
                    other => panic!("{:?}", other),
                }
            }
            other => panic!("{:?}", other),
        }
    }
}

#[test]
fn transfers_without_a_data_connection_are_refused() {
    let mut client = session();
    for command in [
        Command::List(None),
        Command::Retr(path("x")),
        Command::Stor(path("x")),
    ] {
        assert_eq!(
            run(&mut client, command, vec![Event::Sent]),
            ["send 426 No opened data connection", "done"]
        );
    }
}

#[test]
fn a_directory_is_listed() {
    let mut client = connected();
    let entries = vec![Some(file("/srv/a", true)), None, Some(file("/srv/b", false))];
    assert_eq!(
        run(
            &mut client,
            Command::List(None),
            vec![
                found("/srv"),
                Event::Sent,
                Event::Checked(true),
                Event::Entries(Some(entries)),
                Event::DataSent,
                Event::Sent,
            ]
        ),
        [
            "canonicalize /srv/",
            "send 125 Starting to list directory...",
            "check dir /srv",
            "read dir /srv",
            "send data drw-rw-rw- 1 anonymous anonymous 5 Dec 24 18:30 a/\r\n\
             -rw-rw-rw- 1 anonymous anonymous 5 Dec 24 18:30 b\r\n",
            "send 226 Transfer done",
            "done",
        ]
    );
    assert!(!client.has_data_connection());
    assert_eq!(
        run(&mut client, Command::List(None), vec![Event::Sent])[0],
        "send 426 No opened data connection"
    );
}

#[test]
fn a_file_is_listed() {
    let mut client = connected();
    assert_eq!(
        run(
            &mut client,
            Command::List(Some(path("b"))),
            vec![
                found("/srv/b"),
                Event::Sent,
                Event::Checked(false),
                Event::Inspected(Some(file("/srv/b", false))),
                Event::DataSent,
                Event::Sent,
            ]
        )[2..5],
        [
            "check dir /srv/b",
            "inspect /srv/b",
            "send data -rw-rw-rw- 1 anonymous anonymous 5 Dec 24 18:30 b\r\n",
        ]
    );
    let mut client = connected();
    assert_eq!(
        run(
            &mut client,
            Command::List(Some(path("b"))),
            vec![found("/srv/b"), Event::Sent, Event::Checked(false), Event::Inspected(None)]
        )[4],
        "send data "
    );
}

#[test]
fn a_listing_that_fails() {
    let mut client = connected();
    assert_eq!(
        run(
            &mut client,
            Command::List(Some(path("x"))),
            vec![gone(), Event::Sent, Event::Sent]
        ),
        [
            "canonicalize /srv/x",
            "send 501 No such file or directory",
            "send 226 Transfer done",
            "done",
        ]
    );
}

#[test]
fn a_directory_that_cannot_be_read_leaves_the_data_connection_open() {
    let mut client = connected();
    assert_eq!(
        run(
            &mut client,
            Command::List(None),
            vec![
                found("/srv"),
                Event::Sent,
                Event::Checked(true),
                Event::Entries(None),
                Event::Sent,
            ]
        )[4..],
        ["send 501 No such file or directory", "done"]
    );
    assert_eq!(
        run(&mut client, Command::Pasv, vec![Event::Sent])[0],
        "send 125 Already listening..."
    );
}

#[test]
fn a_file_is_sent() {
    let mut client = connected();
    cwd(&mut client, "pub", "/srv/pub");
    assert_eq!(
        run(
            &mut client,
            Command::Retr(path("f")),
            vec![
                found("/srv/pub/f"),
                Event::Checked(true),
                Event::Sent,
                Event::Contents("data".to_string()),
                Event::DataSent,
                Event::Sent,
            ]
        ),
        [
            "canonicalize /srv/pub/f",
            "check file /srv/pub/f",
            "send 125 Starting to send file...",
            "read file /srv/pub/f",
            "send data data",
            "send 226 Transfer done",
            "done",
        ]
    );
}

#[test]
fn a_file_that_is_not_there() {
    let mut client = connected();
    cwd(&mut client, "pub", "/srv/pub");
    assert_eq!(
        run(
            &mut client,
            Command::Retr(path("f")),
            vec![gone(), Event::Sent, Event::Sent]
        ),
        [
            "canonicalize /srv/pub/f",
            "send 451 \"pub/f\" doesn't exist",
            "send 226 Transfer done",
            "done",
        ]
    );
    let mut client = connected();
    assert_eq!(
        run(
            &mut client,
            Command::Retr(path("d")),
            vec![found("/srv/d"), Event::Checked(false), Event::Sent, Event::Sent]
        )[2..],
        ["send 451 \"/srv/d\" doesn't exist", "send 226 Transfer done", "done"]
    );
}

#[test]
fn a_file_is_received() {
    let mut client = connected();
    cwd(&mut client, "pub", "/srv/pub");
    assert_eq!(
        run(
            &mut client,
            Command::Stor(path("f")),
            vec![
                Event::Sent,
                Event::Received("data".to_string()),
                Event::Written,
                Event::Sent,
            ]
        ),
        [
            "send 125 Starting to send file...",
            "receive data",
            "write file pub/f data",
            "send 226 Transfer done",
            "done",
        ]
    );
}

#[test]
fn a_directory_is_created() {
    let mut client = session();
    assert_eq!(
        run(
            &mut client,
            Command::Mkd(path("a/b")),
            vec![found("/srv/a"), Event::Checked(true), Event::Created(true), Event::Sent]
        ),
        [
            "canonicalize /srv/a",
            "check dir /srv/a",
            "create dir /srv/a/b",
            "send 257 Folder successfully created!",
            "done",
        ]
    );
}

#[test]
fn a_directory_that_cannot_be_created() {
    let refused = "send 550 Couldn't create folder";
    let mut client = session();
    assert_eq!(run(&mut client, Command::Mkd(path("")), vec![Event::Sent]), [refused, "done"]);
    assert_eq!(run(&mut client, Command::Mkd(path("/")), vec![Event::Sent]), [refused, "done"]);
    assert_eq!(
        run(&mut client, Command::Mkd(path("a")), vec![found("/etc"), Event::Sent])[1],
        refused
    );
    assert_eq!(
        run(
            &mut client,
            Command::Mkd(path("a/b")),
            vec![found("/srv/a"), Event::Checked(false), Event::Sent]
        )[2],
        refused
    );
    assert_eq!(
        run(
            &mut client,
            Command::Mkd(path("a/..")),
            vec![found("/srv/a"), Event::Checked(true), Event::Sent]
        )[2],
        refused
    );
    assert_eq!(
        run(
            &mut client,
            Command::Mkd(path("a")),
            vec![found("/srv"), Event::Checked(true), Event::Created(false), Event::Sent]
        )[3],
        refused
    );
}

#[test]
fn a_directory_is_removed() {
    let mut client = session();
    assert_eq!(
        run(
            &mut client,
            Command::Rmd(path("a")),
            vec![found("/srv/a"), Event::Removed(true), Event::Sent]
        ),
        [
            "canonicalize /srv/a",
            "remove dir /srv/a",
            "send 250 Folder successfully removed",
            "done",
        ]
    );
    assert_eq!(
        run(
            &mut client,
            Command::Rmd(path("a")),
            vec![found("/srv/a"), Event::Removed(false), Event::Sent]
        )[2],
        "send 550 Couldn't remove folder"
    );
    assert_eq!(
        run(&mut client, Command::Rmd(path("..")), vec![found("/"), Event::Sent])[1],
        "send 550 Couldn't remove folder"
    );
}

#[test]
fn the_session_ends() {
    let mut client = session();
    assert_eq!(
        run(&mut client, Command::Quit, vec![Event::Sent, Event::Closed]),
        ["send 221 Closing connection...", "close control", "done"]
    );
    assert!(!connected().is_ready(&Command::Quit));
}

#[test]
fn only_outcomes_of_the_action_are_expected() {
    let mut client = session();
    assert!(!client.is_expecting(&Event::Sent));
    client.handle_cmd(Command::Syst);
    assert!(!client.is_ready(&Command::Syst));
    assert!(client.is_expecting(&Event::Sent));
    assert!(!client.is_expecting(&Event::Closed));

    let mut client = connected();
    client.handle_cmd(Command::List(None));
    client.resume(found("/srv"));
    client.resume(Event::Sent);
    client.resume(Event::Checked(true));
    let mut odd = file("/srv/a", false);
    odd.time.month = 12;
    assert!(!client.is_expecting(&Event::Entries(Some(vec![Some(odd)]))));
    assert!(client.is_expecting(&Event::Entries(Some(vec![None, Some(file("x", false))]))));
}

#[test]
fn a_missing_file_whose_path_is_not_text_cannot_be_named() {
    let mut client = connected();
    client.handle_cmd(Command::Retr(UnixPath::new(b"\xff".to_vec())));
    assert!(!client.is_expecting(&gone()));
    assert!(client.is_expecting(&found("/srv/x")));
    client.resume(Event::Canonical(Ok(UnixPath::new(b"/srv/\xff".to_vec()))));
    assert!(!client.is_expecting(&Event::Checked(false)));
    assert!(client.is_expecting(&Event::Checked(true)));
}
