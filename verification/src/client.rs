//! A session with one client.

use crate::cmd::{Command, CommandModel, TransferType};
use crate::ftp::{Answer, ResultCode};
use crate::listing::{add_file_info, listing, FileInfo, FileInfoModel};
use crate::path::{climbs, starts_with, strip_prefix, UnixPath};
use crate::session::{
    accepts, advance, at, complete_path, confined, disconnected, finish_transfer, greeting,
    has_month, have_months, initial, missing, passive_address, permitted, ready, refuse_transfer,
    start, well_formed, ActionModel, ClientModel, EventModel, StageModel,
};
use crate::session_laws::{
    law_advance_confined, law_advance_stays_below, law_start_confined, law_start_stays_below,
};
use crate::text::{decimal, is_utf8, joined, numeral, utf8_text};
use vstd::pervasive::unreached;
use vstd::prelude::*;
use vstd::slice::slice_to_vec;
use vstd::string::*;
use vstd::utf8::*;

verus! {

/// What the server is to do next.
#[derive(Debug)]
pub enum Action {
    /// Send a reply on the control connection.
    Send(Answer),
    /// Find the absolute path, free of symbolic links, of an existing file.
    Canonicalize(UnixPath),
    /// Find out whether a directory is there.
    CheckDir(UnixPath),
    /// Find out whether a regular file is there.
    CheckFile(UnixPath),
    /// Create a directory.
    CreateDir(UnixPath),
    /// Remove a directory and all that is in it.
    RemoveDir(UnixPath),
    /// Read a file.
    ReadFile(UnixPath),
    /// Look at each entry of a directory.
    ReadDir(UnixPath),
    /// Look at a file.
    Inspect(UnixPath),
    /// Send text on the data connection.
    SendData(String),
    /// Listen for a data connection on a port; on any free one where it is zero.
    Bind(u16),
    /// Take the next connection on the port as the data connection.
    Accept,
    /// Receive text on the data connection until it is closed.
    ReceiveData,
    /// Create a file and write text to it.
    WriteFile(UnixPath, String),
    /// Close the control connection.
    CloseControl,
    /// Nothing: the request is done.
    Done,
}

impl View for Action {
    type V = ActionModel;

    open spec fn view(&self) -> ActionModel {
        match *self {
            Action::Send(answer) => ActionModel::Send(answer@),
            Action::Canonicalize(path) => ActionModel::Canonicalize(path@),
            Action::CheckDir(path) => ActionModel::CheckDir(path@),
            Action::CheckFile(path) => ActionModel::CheckFile(path@),
            Action::CreateDir(path) => ActionModel::CreateDir(path@),
            Action::RemoveDir(path) => ActionModel::RemoveDir(path@),
            Action::ReadFile(path) => ActionModel::ReadFile(path@),
            Action::ReadDir(path) => ActionModel::ReadDir(path@),
            Action::Inspect(path) => ActionModel::Inspect(path@),
            Action::SendData(data) => ActionModel::SendData(data@),
            Action::Bind(port) => ActionModel::Bind(port),
            Action::Accept => ActionModel::Accept,
            Action::ReceiveData => ActionModel::ReceiveData,
            Action::WriteFile(path, data) => ActionModel::WriteFile(path@, data@),
            Action::CloseControl => ActionModel::CloseControl,
            Action::Done => ActionModel::Done,
        }
    }
}

/// What came of an action.
#[derive(Debug)]
pub enum Event {
    Sent,
    /// The path that was found, or why there was none.
    Canonical(Result<UnixPath, std::io::Error>),
    Checked(bool),
    Created(bool),
    Removed(bool),
    Contents(String),
    /// The entries of the directory, unless it could not be read; `None` for an entry that
    /// could not be looked at.
    Entries(Option<Vec<Option<FileInfo>>>),
    /// What was found of the file, unless it could not be looked at.
    Inspected(Option<FileInfo>),
    DataSent,
    /// The port that the server listens on.
    Bound(u16),
    /// Whether a client connected before the port was given up.
    Connected(bool),
    Received(String),
    Written,
    Closed,
}

/// The path, where there is one.
pub open spec fn path_model(path: Option<UnixPath>) -> Option<Seq<u8>> {
    match path {
        Some(path) => Some(path@),
        None => None,
    }
}

/// The path that was found, or why there was none.
pub open spec fn place_model(found: Result<UnixPath, std::io::Error>) -> Result<
    Seq<u8>,
    std::io::Error,
> {
    match found {
        Ok(path) => Ok(path@),
        Err(error) => Err(error),
    }
}

/// What was found of a file, where it could be looked at.
pub open spec fn info_model(info: Option<FileInfo>) -> Option<FileInfoModel> {
    match info {
        Some(info) => Some(info@),
        None => None,
    }
}

/// What was found of each file.
pub open spec fn infos_model(files: Seq<Option<FileInfo>>) -> Seq<Option<FileInfoModel>> {
    files.map_values(|info: Option<FileInfo>| info_model(info))
}

impl View for Event {
    type V = EventModel;

    open spec fn view(&self) -> EventModel {
        match *self {
            Event::Sent => EventModel::Sent,
            Event::Canonical(found) => EventModel::Canonical(place_model(found)),
            Event::Checked(there) => EventModel::Checked(there),
            Event::Created(done) => EventModel::Created(done),
            Event::Removed(done) => EventModel::Removed(done),
            Event::Contents(data) => EventModel::Contents(data@),
            Event::Entries(None) => EventModel::Entries(None),
            Event::Entries(Some(files)) => EventModel::Entries(Some(infos_model(files@))),
            Event::Inspected(info) => EventModel::Inspected(info_model(info)),
            Event::DataSent => EventModel::DataSent,
            Event::Bound(port) => EventModel::Bound(port),
            Event::Connected(made) => EventModel::Connected(made),
            Event::Received(data) => EventModel::Received(data@),
            Event::Written => EventModel::Written,
            Event::Closed => EventModel::Closed,
        }
    }
}

/// What a session waits for.
enum Stage {
    Idle,
    Reply,
    Refuse,
    CwdResolve(String),
    ListResolve,
    ListStart(UnixPath),
    ListCheck(UnixPath),
    ListRead,
    ListInspect,
    MkdResolve(UnixPath),
    MkdCheck(UnixPath, UnixPath),
    MkdCreate,
    PasvBind,
    PasvAnnounce,
    PasvAccept,
    QuitReply,
    QuitClose,
    RetrResolve(UnixPath),
    RetrCheck(UnixPath),
    RetrStart(UnixPath),
    RetrRead,
    RmdResolve,
    RmdRemove,
    StorStart(UnixPath),
    StorReceive(UnixPath),
    StorWrite,
    Transfer,
}

impl View for Stage {
    type V = StageModel;

    closed spec fn view(&self) -> StageModel {
        match *self {
            Stage::Idle => StageModel::Idle,
            Stage::Reply => StageModel::Reply,
            Stage::Refuse => StageModel::Refuse,
            Stage::CwdResolve(directory) => StageModel::CwdResolve(directory@),
            Stage::ListResolve => StageModel::ListResolve,
            Stage::ListStart(place) => StageModel::ListStart(place@),
            Stage::ListCheck(place) => StageModel::ListCheck(place@),
            Stage::ListRead => StageModel::ListRead,
            Stage::ListInspect => StageModel::ListInspect,
            Stage::MkdResolve(path) => StageModel::MkdResolve(path@),
            Stage::MkdCheck(place, path) => StageModel::MkdCheck(place@, path@),
            Stage::MkdCreate => StageModel::MkdCreate,
            Stage::PasvBind => StageModel::PasvBind,
            Stage::PasvAnnounce => StageModel::PasvAnnounce,
            Stage::PasvAccept => StageModel::PasvAccept,
            Stage::QuitReply => StageModel::QuitReply,
            Stage::QuitClose => StageModel::QuitClose,
            Stage::RetrResolve(path) => StageModel::RetrResolve(path@),
            Stage::RetrCheck(place) => StageModel::RetrCheck(place@),
            Stage::RetrStart(place) => StageModel::RetrStart(place@),
            Stage::RetrRead => StageModel::RetrRead,
            Stage::RmdResolve => StageModel::RmdResolve,
            Stage::RmdRemove => StageModel::RmdRemove,
            Stage::StorStart(path) => StageModel::StorStart(path@),
            Stage::StorReceive(path) => StageModel::StorReceive(path@),
            Stage::StorWrite => StageModel::StorWrite,
            Stage::Transfer => StageModel::Transfer,
        }
    }
}

/// The state of a session with one client.
pub struct Client {
    cwd: UnixPath,
    data_port: Option<u16>,
    data_reader: bool,
    data_writer: bool,
    name: Option<String>,
    server_root: UnixPath,
    transfer_type: TransferType,
    stage: Stage,
}

impl View for Client {
    type V = ClientModel;

    closed spec fn view(&self) -> ClientModel {
        ClientModel {
            cwd: self.cwd@,
            data_port: self.data_port,
            data_reader: self.data_reader,
            data_writer: self.data_writer,
            name: match self.name {
                Some(name) => Some(name@),
                None => None,
            },
            server_root: self.server_root@,
            transfer_type: self.transfer_type,
            stage: self.stage@,
        }
    }
}

/// Why a path of the client names no place that the server may touch.
#[derive(Debug)]
pub enum PathError {
    /// It could not be resolved, for the reason that the file system gave.
    Io(std::io::Error),
    /// The file lies outside the directory that the server serves.
    PermissionDenied,
}

impl Client {
    /// A session that begins, on a server of the directory `server_root`.
    pub fn new(server_root: UnixPath) -> (client: Client)
        ensures
            client@ == initial(server_root@),
            server_root@.len() > 0 ==> well_formed(client@),
    {
        let client = Client {
            cwd: UnixPath::new(Vec::new()),
            data_port: None,
            data_reader: false,
            data_writer: false,
            name: None,
            server_root,
            transfer_type: TransferType::Ascii,
            stage: Stage::Idle,
        };
        assert(client@ =~= initial(server_root@));
        client
    }

    /// The reply that opens a session.
    pub fn greeting() -> (answer: Answer)
        ensures
            answer@ == greeting(),
    {
        Answer::new(ResultCode::ServiceReadyForNewUser, "Welcome to this FTP server!")
    }

    /// Sends the last reply of a request.
    fn send(&mut self, code: ResultCode, message: &str) -> (action: Action)
        ensures
            (final(self)@, action@) == crate::session::reply(old(self)@, code, message@),
    {
        self.stage = Stage::Reply;
        Action::Send(Answer::new(code, message))
    }

    /// Sends a reply that is not the last of a request.
    fn send_first(&mut self, stage: Stage, code: ResultCode, message: &str) -> (action: Action)
        ensures
            (final(self)@, action@) == crate::session::send(old(self)@, stage@, code, message@),
    {
        self.stage = stage;
        Action::Send(Answer::new(code, message))
    }

    /// Gives up the data connection.
    fn close_data_connection(&mut self)
        ensures
            final(self)@ == disconnected(old(self)@),
    {
        self.data_reader = false;
        self.data_writer = false;
    }

    /// Whether a data connection is open.
    pub fn has_data_connection(&self) -> (open: bool)
        ensures
            open == self@.data_writer,
    {
        self.data_writer
    }

    /// The place on the server's disk that a path of the client names, before symbolic
    /// links and `..` are resolved.
    pub fn complete_path(&self, path: UnixPath) -> (place: UnixPath)
        ensures
            place@ == complete_path(self@, path@),
    {
        self.server_root.join(&path.relative())
    }

    /// The place that was found for a path of the client, where it lies in the directory
    /// that the server serves. Why none was found is handed on.
    pub fn check_path(&self, found: Result<UnixPath, std::io::Error>) -> (place: Result<
        UnixPath,
        PathError,
    >)
        ensures
            place == (match found {
                Ok(path) => if starts_with(path@, self@.server_root) {
                    Ok(path)
                } else {
                    Err(PathError::PermissionDenied)
                },
                Err(error) => Err(PathError::Io(error)),
            }),
    {
        match found {
            Ok(place) => if place.starts_with(&self.server_root) {
                Ok(place)
            } else {
                Err(PathError::PermissionDenied)
            },
            Err(error) => Err(PathError::Io(error)),
        }
    }

    /// Asks for the place that a path of the client names.
    fn resolve(&mut self, stage: Stage, path: UnixPath) -> (action: Action)
        ensures
            (final(self)@, action@) == crate::session::resolve(old(self)@, stage@, path@),
    {
        let place = self.complete_path(path);
        self.stage = stage;
        Action::Canonicalize(place)
    }

    /// Refuses a transfer for want of a data connection.
    fn refuse_transfer(&mut self) -> (action: Action)
        ensures
            (final(self)@, action@) == refuse_transfer(old(self)@),
    {
        self.send(ResultCode::ConnectionClosed, "No opened data connection")
    }

    /// Closes the data connection and says so.
    fn finish_transfer(&mut self) -> (action: Action)
        ensures
            (final(self)@, action@) == finish_transfer(old(self)@),
    {
        self.close_data_connection();
        self.send(ResultCode::ClosingDataConnection, "Transfer done")
    }

    /// The session waits for the next request.
    fn finish(&mut self) -> (action: Action)
        ensures
            (final(self)@, action@) == crate::session::finish(old(self)@),
    {
        self.stage = Stage::Idle;
        Action::Done
    }

    /// Whether the session can take the request.
    pub fn is_ready(&self, command: &Command) -> (can: bool)
        ensures
            can == ready(self@, command@),
    {
        let idle = match &self.stage {
            Stage::Idle => true,
            _ => false,
        };
        let ends = match command {
            Command::Quit => true,
            _ => false,
        };
        idle && !(ends && self.data_writer)
    }

    /// Begins a request: what is to be done first.
    pub fn handle_cmd(&mut self, cmd: Command) -> (action: Action)
        requires
            ready(old(self)@, cmd@),
        ensures
            (final(self)@, action@) == start(old(self)@, cmd@),
            well_formed(old(self)@) ==> {
                &&& well_formed(final(self)@)
                &&& confined(old(self)@.server_root, action@)
            },
            !climbs(old(self)@.cwd) ==> !climbs(final(self)@.cwd),
    {
        proof {
            if well_formed(self@) {
                law_start_confined(self@, cmd@);
            }
            if !climbs(self@.cwd) {
                law_start_stays_below(self@, cmd@);
            }
        }
        match cmd {
            Command::Auth => self.send(ResultCode::CommandNotImplemented, "Not implemented"),
            Command::Cwd(directory) => self.cwd(directory),
            Command::List(path) => self.list(path),
            Command::Mkd(path) => self.mkd(path),
            Command::NoOp => self.send(ResultCode::CommandOkay, "Doing nothing"),
            Command::Port(port) => {
                self.data_port = Some(port);
                let message = joined("Data port is now ", decimal(port as u64).as_str(), "");
                proof {
                    reveal_strlit("");
                }
                assert(message@ =~= "Data port is now "@ + numeral(port as nat));
                self.send(ResultCode::CommandOkay, message.as_str())
            },
            Command::Pasv => self.pasv(),
            Command::Pwd => self.pwd(),
            Command::Quit => self.quit(),
            Command::Retr(file) => self.retr(file),
            Command::Rmd(path) => self.rmd(path),
            Command::Stor(file) => self.stor(file),
            Command::Syst => self.send(ResultCode::CommandOkay, "I won't tell!"),
            Command::Type(typ) => {
                self.transfer_type = typ;
                self.send(ResultCode::CommandOkay, "Transfer type changed successfully")
            },
            Command::CdUp => {
                if let Some(path) = self.cwd.parent() {
                    self.cwd = path;
                }
                self.send(ResultCode::CommandOkay, "Done")
            },
            Command::Unknown(verb) => {
                let message = joined("\"", verb.as_str(), "\": Not implemented");
                self.send(ResultCode::UnknownCommand, message.as_str())
            },
            Command::User(content) => {
                if content.as_str().is_empty() {
                    self.send(ResultCode::InvalidParameterOrArgument, "Invalid username")
                } else {
                    let message = joined("Welcome ", content.as_str(), "!");
                    self.name = Some(content);
                    self.send(ResultCode::UserloggedIn, message.as_str())
                }
            },
        }
    }

    /// Shows the working directory.
    fn pwd(&mut self) -> (action: Action)
        ensures
            (final(self)@, action@) == start(old(self)@, CommandModel::Pwd),
    {
        match utf8_text(slice_to_vec(self.cwd.bytes())) {
            Some(text) => {
                let message = joined("\"/", text.as_str(), "\" ");
                self.send(ResultCode::PATHNAMECreated, message.as_str())
            },
            None => self.send(ResultCode::FileNotFound, "No such file or directory"),
        }
    }

    /// Begins to change the working directory.
    fn cwd(&mut self, directory: String) -> (action: Action)
        ensures
            (final(self)@, action@) == start(
                old(self)@,
                CommandModel::Cwd(directory@),
            ),
    {
        let wanted = UnixPath::new(slice_to_vec(directory.as_str().as_bytes()));
        let path = self.cwd.join(&wanted);
        self.resolve(Stage::CwdResolve(directory), path)
    }

    /// Begins to list a directory or a file.
    fn list(&mut self, path: Option<UnixPath>) -> (action: Action)
        ensures
            (final(self)@, action@) == start(
                old(self)@,
                CommandModel::List(path_model(path)),
            ),
    {
        if self.data_writer {
            let wanted = match path {
                Some(path) => path,
                None => UnixPath::new(Vec::new()),
            };
            assert(path is None ==> wanted@ =~= seq![]);
            let path = self.cwd.join(&wanted);
            self.resolve(Stage::ListResolve, path)
        } else {
            self.refuse_transfer()
        }
    }

    /// Begins to create a directory.
    fn mkd(&mut self, path: UnixPath) -> (action: Action)
        ensures
            (final(self)@, action@) == start(old(self)@, CommandModel::Mkd(path@)),
    {
        let path = self.cwd.join(&path);
        match path.parent() {
            Some(above) => self.resolve(Stage::MkdResolve(path), above),
            None => self.send(ResultCode::FileNotFound, "Couldn't create folder"),
        }
    }

    /// Begins to remove a directory.
    fn rmd(&mut self, directory: UnixPath) -> (action: Action)
        ensures
            (final(self)@, action@) == start(
                old(self)@,
                CommandModel::Rmd(directory@),
            ),
    {
        let path = self.cwd.join(&directory);
        self.resolve(Stage::RmdResolve, path)
    }

    /// Begins to open a data connection.
    fn pasv(&mut self) -> (action: Action)
        ensures
            (final(self)@, action@) == start(old(self)@, CommandModel::Pasv),
    {
        let port: u16 = match self.data_port {
            Some(port) => port,
            None => 0,
        };
        if self.data_writer {
            return self.send(ResultCode::DataConnectionAlreadyOpen, "Already listening...");
        }
        self.stage = Stage::PasvBind;
        Action::Bind(port)
    }

    /// Begins to end the session.
    fn quit(&mut self) -> (action: Action)
        requires
            !old(self)@.data_writer,
        ensures
            (final(self)@, action@) == start(old(self)@, CommandModel::Quit),
    {
        self.send_first(
            Stage::QuitReply,
            ResultCode::ServiceClosingControlConnection,
            "Closing connection...",
        )
    }

    /// Begins to send a file.
    fn retr(&mut self, path: UnixPath) -> (action: Action)
        ensures
            (final(self)@, action@) == start(old(self)@, CommandModel::Retr(path@)),
    {
        if self.data_writer {
            let path = self.cwd.join(&path);
            let wanted = path.duplicate();
            self.resolve(Stage::RetrResolve(path), wanted)
        } else {
            self.refuse_transfer()
        }
    }

    /// Begins to receive a file.
    fn stor(&mut self, path: UnixPath) -> (action: Action)
        ensures
            (final(self)@, action@) == start(old(self)@, CommandModel::Stor(path@)),
    {
        if self.data_reader {
            let path = self.cwd.join(&path);
            self.send_first(
                Stage::StorStart(path),
                ResultCode::DataConnectionAlreadyOpen,
                "Starting to send file...",
            )
        } else {
            self.refuse_transfer()
        }
    }

    /// Whether the session can take the event.
    pub fn is_expecting(&self, event: &Event) -> (can: bool)
        ensures
            can == accepts(self@, event@),
    {
        match (&self.stage, event) {
            (Stage::Reply, Event::Sent) => true,
            (Stage::Refuse, Event::Sent) => true,
            (Stage::CwdResolve(_), Event::Canonical(_)) => true,
            (Stage::ListResolve, Event::Canonical(_)) => true,
            (Stage::ListStart(_), Event::Sent) => true,
            (Stage::ListCheck(_), Event::Checked(_)) => true,
            (Stage::ListRead, Event::Entries(None)) => true,
            (Stage::ListRead, Event::Entries(Some(files))) => all_have_months(files),
            (Stage::ListInspect, Event::Inspected(info)) => is_month(info),
            (Stage::MkdResolve(_), Event::Canonical(_)) => true,
            (Stage::MkdCheck(_, _), Event::Checked(_)) => true,
            (Stage::MkdCreate, Event::Created(_)) => true,
            (Stage::PasvBind, Event::Bound(_)) => true,
            (Stage::PasvAnnounce, Event::Sent) => true,
            (Stage::PasvAccept, Event::Connected(_)) => true,
            (Stage::QuitReply, Event::Sent) => true,
            (Stage::QuitClose, Event::Closed) => true,
            (Stage::RetrResolve(path), Event::Canonical(found)) => {
                let inside = match found {
                    Ok(place) => place.starts_with(&self.server_root),
                    Err(_) => false,
                };
                inside || is_utf8(path.bytes())
            },
            (Stage::RetrCheck(place), Event::Checked(there)) => *there || is_utf8(place.bytes()),
            (Stage::RetrStart(_), Event::Sent) => true,
            (Stage::RetrRead, Event::Contents(_)) => true,
            (Stage::RmdResolve, Event::Canonical(_)) => true,
            (Stage::RmdRemove, Event::Removed(_)) => true,
            (Stage::StorStart(_), Event::Sent) => true,
            (Stage::StorReceive(_), Event::Received(_)) => true,
            (Stage::StorWrite, Event::Written) => true,
            (Stage::Transfer, Event::DataSent) => true,
            _ => false,
        }
    }

    /// Goes on with a request after an action: what is to be done next.
    pub fn resume(&mut self, event: Event) -> (action: Action)
        requires
            accepts(old(self)@, event@),
        ensures
            (final(self)@, action@) == advance(old(self)@, event@),
            well_formed(old(self)@) ==> {
                &&& well_formed(final(self)@)
                &&& confined(old(self)@.server_root, action@)
                &&& !climbs(old(self)@.cwd) && (event@ matches EventModel::Canonical(Ok(place))
                    ==> !climbs(place)) ==> !climbs(final(self)@.cwd)
            },
    {
        proof {
            if well_formed(self@) {
                law_advance_confined(self@, event@);
                if !climbs(self@.cwd) && (event@ matches EventModel::Canonical(Ok(place))
                    ==> !climbs(place)) {
                    law_advance_stays_below(self@, event@);
                }
            }
        }
        let mut stage = Stage::Idle;
        std::mem::swap(&mut stage, &mut self.stage);
        match (stage, event) {
            (Stage::Reply, Event::Sent) => self.finish(),
            (Stage::Refuse, Event::Sent) => self.finish_transfer(),
            (Stage::CwdResolve(directory), Event::Canonical(found)) => self.cwd_resolved(
                directory,
                found,
            ),
            (Stage::ListResolve, Event::Canonical(found)) => self.list_resolved(found),
            (Stage::ListStart(place), Event::Sent) => {
                self.stage = Stage::ListCheck(place.duplicate());
                Action::CheckDir(place)
            },
            (Stage::ListCheck(place), Event::Checked(true)) => {
                self.stage = Stage::ListRead;
                Action::ReadDir(place)
            },
            (Stage::ListCheck(place), Event::Checked(false)) => {
                self.stage = Stage::ListInspect;
                Action::Inspect(place)
            },
            (Stage::ListRead, Event::Entries(Some(files))) => {
                let out = list_files(&files);
                self.send_data(out)
            },
            (Stage::ListRead, Event::Entries(None)) => self.send(
                ResultCode::InvalidParameterOrArgument,
                "No such file or directory",
            ),
            (Stage::ListInspect, Event::Inspected(info)) => {
                let mut files: Vec<Option<FileInfo>> = Vec::new();
                files.push(info);
                assert(infos_model(files@) =~= seq![info_model(info)]);
                let out = list_files(&files);
                self.send_data(out)
            },
            (Stage::MkdResolve(path), Event::Canonical(found)) => self.mkd_resolved(path, found),
            (Stage::MkdCheck(place, path), Event::Checked(there)) => self.mkd_checked(
                place,
                path,
                there,
            ),
            (Stage::MkdCreate, Event::Created(true)) => self.send(
                ResultCode::PATHNAMECreated,
                "Folder successfully created!",
            ),
            (Stage::MkdCreate, Event::Created(false)) => self.send(
                ResultCode::FileNotFound,
                "Couldn't create folder",
            ),
            (Stage::PasvBind, Event::Bound(port)) => self.pasv_bound(port),
            (Stage::PasvAnnounce, Event::Sent) => {
                self.stage = Stage::PasvAccept;
                Action::Accept
            },
            (Stage::PasvAccept, Event::Connected(false)) => self.finish(),
            (Stage::PasvAccept, Event::Connected(true)) => {
                self.data_writer = true;
                self.data_reader = true;
                self.finish()
            },
            (Stage::QuitReply, Event::Sent) => {
                self.stage = Stage::QuitClose;
                Action::CloseControl
            },
            (Stage::QuitClose, Event::Closed) => self.finish(),
            (Stage::RetrResolve(path), Event::Canonical(found)) => self.retr_resolved(path, found),
            (Stage::RetrCheck(place), Event::Checked(true)) => self.send_first(
                Stage::RetrStart(place),
                ResultCode::DataConnectionAlreadyOpen,
                "Starting to send file...",
            ),
            (Stage::RetrCheck(place), Event::Checked(false)) => self.retr_missing(place),
            (Stage::RetrStart(place), Event::Sent) => {
                self.stage = Stage::RetrRead;
                Action::ReadFile(place)
            },
            (Stage::RetrRead, Event::Contents(out)) => self.send_data(out),
            (Stage::RmdResolve, Event::Canonical(found)) => match self.check_path(found) {
                Ok(place) => {
                    self.stage = Stage::RmdRemove;
                    Action::RemoveDir(place)
                },
                Err(_) => self.send(ResultCode::FileNotFound, "Couldn't remove folder"),
            },
            (Stage::RmdRemove, Event::Removed(true)) => self.send(
                ResultCode::RequestedFileActionOkay,
                "Folder successfully removed",
            ),
            (Stage::RmdRemove, Event::Removed(false)) => self.send(
                ResultCode::FileNotFound,
                "Couldn't remove folder",
            ),
            (Stage::StorStart(path), Event::Sent) => self.receive_data(path),
            (Stage::StorReceive(path), Event::Received(data)) => {
                self.stage = Stage::StorWrite;
                Action::WriteFile(path, data)
            },
            (Stage::StorWrite, Event::Written) => self.finish_transfer(),
            (Stage::Transfer, Event::DataSent) => self.finish_transfer(),
            _ => unreached(),
        }
    }

    /// Goes on to change the working directory.
    fn cwd_resolved(
        &mut self,
        directory: String,
        found: Result<UnixPath, std::io::Error>,
    ) -> (action: Action)
        ensures
            (final(self)@, action@) == advance(
                at(old(self)@, StageModel::CwdResolve(directory@)),
                EventModel::Canonical(place_model(found)),
            ),
    {
        if let Ok(dir) = self.check_path(found) {
            if let Some(prefix) = self.strip_prefix(&dir) {
                self.cwd = prefix;
                let message = joined("Directory changed to \"", directory.as_str(), "\"");
                return self.send(ResultCode::RequestedFileActionOkay, message.as_str());
            }
        }
        self.send(ResultCode::FileNotFound, "No such file or directory")
    }

    /// A place on the server's disk as seen from the root of the server.
    fn strip_prefix(&self, dir: &UnixPath) -> (rest: Option<UnixPath>)
        ensures
            match rest {
                Some(path) => strip_prefix(dir@, self@.server_root) == Some(path@),
                None => strip_prefix(dir@, self@.server_root) is None,
            },
    {
        dir.strip_prefix(&self.server_root)
    }

    /// Goes on to list a directory or a file.
    fn list_resolved(&mut self, found: Result<UnixPath, std::io::Error>) -> (action: Action)
        ensures
            (final(self)@, action@) == advance(
                at(old(self)@, StageModel::ListResolve),
                EventModel::Canonical(place_model(found)),
            ),
    {
        match self.check_path(found) {
            Ok(place) => self.send_first(
                Stage::ListStart(place),
                ResultCode::DataConnectionAlreadyOpen,
                "Starting to list directory...",
            ),
            Err(_) => self.send_first(
                Stage::Refuse,
                ResultCode::InvalidParameterOrArgument,
                "No such file or directory",
            ),
        }
    }

    /// Goes on to create a directory, when the place of the one above it is known.
    fn mkd_resolved(
        &mut self,
        path: UnixPath,
        found: Result<UnixPath, std::io::Error>,
    ) -> (action: Action)
        ensures
            (final(self)@, action@) == advance(
                at(old(self)@, StageModel::MkdResolve(path@)),
                EventModel::Canonical(place_model(found)),
            ),
    {
        match self.check_path(found) {
            Ok(place) => {
                self.stage = Stage::MkdCheck(place.duplicate(), path);
                Action::CheckDir(place)
            },
            Err(_) => self.send(ResultCode::FileNotFound, "Couldn't create folder"),
        }
    }

    /// Goes on to create a directory in the one at `place`.
    fn mkd_checked(&mut self, place: UnixPath, path: UnixPath, there: bool) -> (action: Action)
        ensures
            (final(self)@, action@) == advance(
                at(old(self)@, StageModel::MkdCheck(place@, path@)),
                EventModel::Checked(there),
            ),
    {
        if there {
            if let Some(name) = path.file_name() {
                self.stage = Stage::MkdCreate;
                return Action::CreateDir(place.join(&name));
            }
        }
        self.send(ResultCode::FileNotFound, "Couldn't create folder")
    }

    /// Tells the client where to open its data connection.
    fn pasv_bound(&mut self, port: u16) -> (action: Action)
        ensures
            (final(self)@, action@) == advance(
                at(old(self)@, StageModel::PasvBind),
                EventModel::Bound(port),
            ),
    {
        let high = decimal((port / 256) as u64);
        let low = decimal((port % 256) as u64);
        let mut message = joined("127,0,0,1,", high.as_str(), ",");
        message.append(low.as_str());
        assert(message@ =~= passive_address(port));
        self.send_first(
            Stage::PasvAnnounce,
            ResultCode::EnteringPassiveMode,
            message.as_str(),
        )
    }

    /// Goes on to send a file.
    fn retr_resolved(
        &mut self,
        path: UnixPath,
        found: Result<UnixPath, std::io::Error>,
    ) -> (action: Action)
        requires
            permitted(old(self)@, place_model(found)) is None ==> valid_utf8(path@),
        ensures
            (final(self)@, action@) == advance(
                at(old(self)@, StageModel::RetrResolve(path@)),
                EventModel::Canonical(place_model(found)),
            ),
    {
        match self.check_path(found) {
            Ok(place) => {
                self.stage = Stage::RetrCheck(place.duplicate());
                Action::CheckFile(place)
            },
            Err(_) => self.retr_missing(path),
        }
    }

    /// Says that a file is not there, and gives up the transfer.
    fn retr_missing(&mut self, path: UnixPath) -> (action: Action)
        requires
            valid_utf8(path@),
        ensures
            (final(self)@, action@) == crate::session::send(
                old(self)@,
                StageModel::Refuse,
                ResultCode::LocalErrorInProcessing,
                missing(path@),
            ),
    {
        let text = utf8_text(slice_to_vec(path.bytes())).unwrap();
        let message = joined("\"", text.as_str(), "\" doesn't exist");
        self.send_first(Stage::Refuse, ResultCode::LocalErrorInProcessing, message.as_str())
    }

    /// Sends text on the data connection.
    fn send_data(&mut self, data: String) -> (action: Action)
        ensures
            final(self)@ == at(old(self)@, StageModel::Transfer),
            action@ == ActionModel::SendData(data@),
    {
        self.stage = Stage::Transfer;
        Action::SendData(data)
    }

    /// Receives what is to be written to the file at `path`.
    fn receive_data(&mut self, path: UnixPath) -> (action: Action)
        ensures
            (final(self)@, action@) == advance(
                at(old(self)@, StageModel::StorStart(path@)),
                EventModel::Sent,
            ),
    {
        self.data_reader = false;
        self.stage = Stage::StorReceive(path);
        Action::ReceiveData
    }
}

/// Whether the month of a file that was looked at has a name.
fn is_month(info: &Option<FileInfo>) -> (named: bool)
    ensures
        named == has_month(info_model(*info)),
{
    match info {
        Some(info) => 0 <= info.time.month && info.time.month <= 11,
        None => true,
    }
}

/// Whether the month of each file that was looked at has a name.
fn all_have_months(files: &Vec<Option<FileInfo>>) -> (named: bool)
    ensures
        named == have_months(infos_model(files@)),
{
    let mut at: usize = 0;
    while at < files.len()
        invariant
            at <= files@.len(),
            forall|k: int| 0 <= k < at ==> has_month(#[trigger] infos_model(files@)[k]),
        decreases files@.len() - at,
    {
        assert(infos_model(files@)[at as int] == info_model(files@[at as int]));
        if !is_month(&files[at]) {
            return false;
        }
        at = at + 1;
    }
    true
}

/// The listing of the files.
fn list_files(files: &Vec<Option<FileInfo>>) -> (out: String)
    requires
        have_months(infos_model(files@)),
    ensures
        out@ == listing(infos_model(files@)),
{
    let mut out = String::new();
    let mut at: usize = 0;
    let ghost infos = infos_model(files@);
    assert(infos.take(0) =~= seq![]);
    while at < files.len()
        invariant
            at <= files@.len(),
            infos == infos_model(files@),
            have_months(infos),
            out@ == listing(infos.take(at as int)),
        decreases files@.len() - at,
    {
        assert(infos.take(at + 1).drop_last() =~= infos.take(at as int));
        assert(has_month(infos[at as int]));
        match &files[at] {
            Some(info) => add_file_info(info, &mut out),
            None => {},
        }
        assert(out@ =~= listing(infos.take(at + 1)));
        at = at + 1;
    }
    assert(infos.take(at as int) =~= infos);
    out
}

}
