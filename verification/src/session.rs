//! The rules of a session: what a client's state is, what the server does next on a
//! request, and how it goes on when that is done.
//!
//! The rules are a transition system. A request puts the session into a stage and asks for
//! one action; the outcome of the action is an event, which puts it into the next stage and
//! asks for the next action, until the request is done.

use crate::cmd::{CommandModel, TransferType};
use crate::ftp::{AnswerModel, ResultCode};
use crate::listing::{listing, FileInfoModel};
use crate::path::{
    file_name, has_leading_dot, has_root, join, parent, relative, starts_with, strip_prefix,
};
use crate::text::numeral;
use vstd::prelude::*;
use vstd::utf8::*;

verus! {

/// What the server is to do next.
#[verifier::ext_equal]
pub enum ActionModel {
    /// Send a reply on the control connection.
    Send(AnswerModel),
    /// Find the absolute path, free of symbolic links, of an existing file.
    Canonicalize(Seq<u8>),
    /// Find out whether a directory is there.
    CheckDir(Seq<u8>),
    /// Find out whether a regular file is there.
    CheckFile(Seq<u8>),
    /// Create a directory.
    CreateDir(Seq<u8>),
    /// Remove a directory and all that is in it.
    RemoveDir(Seq<u8>),
    /// Read a file.
    ReadFile(Seq<u8>),
    /// Look at each entry of a directory.
    ReadDir(Seq<u8>),
    /// Look at a file.
    Inspect(Seq<u8>),
    /// Send text on the data connection.
    SendData(Seq<char>),
    /// Listen for a data connection on a port; on any free one where it is zero.
    Bind(u16),
    /// Take the next connection on the port as the data connection.
    Accept,
    /// Receive text on the data connection until it is closed.
    ReceiveData,
    /// Create a file and write text to it.
    WriteFile(Seq<u8>, Seq<char>),
    /// Close the control connection.
    CloseControl,
    /// Nothing: the request is done.
    Done,
}

/// What came of an action.
#[verifier::ext_equal]
pub enum EventModel {
    Sent,
    /// The path that was found, or why there was none.
    Canonical(Result<Seq<u8>, std::io::Error>),
    Checked(bool),
    Created(bool),
    Removed(bool),
    Contents(Seq<char>),
    /// The entries of the directory, unless it could not be read; `None` for an entry that
    /// could not be looked at.
    Entries(Option<Seq<Option<FileInfoModel>>>),
    /// What was found of the file, unless it could not be looked at.
    Inspected(Option<FileInfoModel>),
    DataSent,
    /// The port that the server listens on.
    Bound(u16),
    /// Whether a client connected before the port was given up.
    Connected(bool),
    Received(Seq<char>),
    Written,
    Closed,
}

/// What a session waits for.
#[verifier::ext_equal]
pub enum StageModel {
    /// The next request.
    Idle,
    /// The last reply of a request to be sent.
    Reply,
    /// A reply to be sent, upon which the data connection is closed.
    Refuse,
    CwdResolve(Seq<char>),
    ListResolve,
    ListStart(Seq<u8>),
    ListCheck(Seq<u8>),
    ListRead,
    ListInspect,
    MkdResolve(Seq<u8>),
    MkdCheck(Seq<u8>, Seq<u8>),
    MkdCreate,
    PasvBind,
    PasvAnnounce,
    PasvAccept,
    QuitReply,
    QuitClose,
    RetrResolve(Seq<u8>),
    RetrCheck(Seq<u8>),
    RetrStart(Seq<u8>),
    RetrRead,
    RmdResolve,
    RmdRemove,
    StorStart(Seq<u8>),
    StorReceive(Seq<u8>),
    StorWrite,
    /// Data to be sent, upon which the data connection is closed.
    Transfer,
}

/// The state of a session.
#[verifier::ext_equal]
pub struct ClientModel {
    /// The working directory, as seen from the root of the server.
    pub cwd: Seq<u8>,
    /// The port that the client named for data connections.
    pub data_port: Option<u16>,
    /// Whether the reading half of a data connection is open.
    pub data_reader: bool,
    /// Whether the writing half of a data connection is open.
    pub data_writer: bool,
    /// The name that the client logged in with.
    pub name: Option<Seq<char>>,
    /// The directory that the server serves.
    pub server_root: Seq<u8>,
    pub transfer_type: TransferType,
    pub stage: StageModel,
}

/// Whether a transfer is under way in the stage, which takes a data connection.
pub open spec fn is_transferring(stage: StageModel) -> bool {
    ||| stage is Refuse
    ||| stage is ListResolve
    ||| stage is ListStart
    ||| stage is ListCheck
    ||| stage is ListRead
    ||| stage is ListInspect
    ||| stage is RetrResolve
    ||| stage is RetrCheck
    ||| stage is RetrStart
    ||| stage is RetrRead
    ||| stage is StorStart
    ||| stage is StorReceive
    ||| stage is StorWrite
    ||| stage is Transfer
}

/// Whether the stage is one of opening a data connection or of ending the session, in which
/// there is no data connection.
pub open spec fn is_unconnected(stage: StageModel) -> bool {
    ||| stage is PasvBind
    ||| stage is PasvAnnounce
    ||| stage is PasvAccept
    ||| stage is QuitReply
    ||| stage is QuitClose
}

/// Whether each place on the server's disk that the stage holds lies in the given directory.
pub open spec fn stage_confined(server_root: Seq<u8>, stage: StageModel) -> bool {
    match stage {
        StageModel::ListStart(place) => starts_with(place, server_root),
        StageModel::ListCheck(place) => starts_with(place, server_root),
        StageModel::MkdCheck(place, _) => starts_with(place, server_root),
        StageModel::RetrCheck(place) => starts_with(place, server_root),
        StageModel::RetrStart(place) => starts_with(place, server_root),
        _ => true,
    }
}

/// What holds of a session at all times.
///
/// Both halves of a data connection are open or neither is, but for the time in which a file
/// is received. A transfer has a data connection. A place at which the server is about to
/// look or to act lies in the directory that it serves. The working directory is given from
/// the root of the server, with neither a slash nor a `.` before it.
pub open spec fn well_formed(client: ClientModel) -> bool {
    &&& client.server_root.len() > 0
    &&& if client.stage is StorReceive || client.stage is StorWrite {
        !client.data_reader && client.data_writer
    } else {
        client.data_reader == client.data_writer
    }
    &&& is_transferring(client.stage) ==> client.data_writer
    &&& is_unconnected(client.stage) ==> !client.data_writer
    &&& stage_confined(client.server_root, client.stage)
    &&& !has_root(client.cwd)
    &&& !has_leading_dot(client.cwd)
}

/// Whether the place at which the action looks or acts lies in the given directory. The
/// place to be resolved and the file to be written are not such places.
pub open spec fn confined(server_root: Seq<u8>, action: ActionModel) -> bool {
    match action {
        ActionModel::CheckDir(place) => starts_with(place, server_root),
        ActionModel::CheckFile(place) => starts_with(place, server_root),
        ActionModel::CreateDir(place) => starts_with(place, server_root),
        ActionModel::RemoveDir(place) => starts_with(place, server_root),
        ActionModel::ReadFile(place) => starts_with(place, server_root),
        ActionModel::ReadDir(place) => starts_with(place, server_root),
        ActionModel::Inspect(place) => starts_with(place, server_root),
        _ => true,
    }
}

/// The state at the beginning of a session.
pub open spec fn initial(server_root: Seq<u8>) -> ClientModel {
    ClientModel {
        cwd: seq![],
        data_port: None,
        data_reader: false,
        data_writer: false,
        name: None,
        server_root,
        transfer_type: TransferType::Ascii,
        stage: StageModel::Idle,
    }
}

/// The reply that opens a session.
pub open spec fn greeting() -> AnswerModel {
    AnswerModel {
        code: ResultCode::ServiceReadyForNewUser,
        message: "Welcome to this FTP server!"@,
    }
}

/// The session in another stage.
pub open spec fn at(client: ClientModel, stage: StageModel) -> ClientModel {
    ClientModel { stage, ..client }
}

/// Sends a reply and goes on from the given stage.
pub open spec fn send(
    client: ClientModel,
    stage: StageModel,
    code: ResultCode,
    message: Seq<char>,
) -> (ClientModel, ActionModel) {
    (at(client, stage), ActionModel::Send(AnswerModel { code, message }))
}

/// Sends the last reply of a request.
pub open spec fn reply(client: ClientModel, code: ResultCode, message: Seq<char>) -> (
    ClientModel,
    ActionModel,
) {
    send(client, StageModel::Reply, code, message)
}

/// The session without a data connection.
pub open spec fn disconnected(client: ClientModel) -> ClientModel {
    ClientModel { data_reader: false, data_writer: false, ..client }
}

/// Closes the data connection and says so.
pub open spec fn finish_transfer(client: ClientModel) -> (ClientModel, ActionModel) {
    reply(disconnected(client), ResultCode::ClosingDataConnection, "Transfer done"@)
}

/// Refuses a transfer for want of a data connection.
pub open spec fn refuse_transfer(client: ClientModel) -> (ClientModel, ActionModel) {
    reply(client, ResultCode::ConnectionClosed, "No opened data connection"@)
}

/// The place on the server's disk that a path of the client names, before symbolic links
/// and `..` are resolved.
pub open spec fn complete_path(client: ClientModel, path: Seq<u8>) -> Seq<u8> {
    join(client.server_root, relative(path))
}

/// Asks for the place that a path of the client names.
pub open spec fn resolve(client: ClientModel, stage: StageModel, path: Seq<u8>) -> (
    ClientModel,
    ActionModel,
) {
    (at(client, stage), ActionModel::Canonicalize(complete_path(client, path)))
}

/// The place that was found, where it lies in the directory that the server serves.
pub open spec fn permitted(
    client: ClientModel,
    found: Result<Seq<u8>, std::io::Error>,
) -> Option<Seq<u8>> {
    match found {
        Ok(place) => if starts_with(place, client.server_root) {
            Some(place)
        } else {
            None
        },
        Err(_) => None,
    }
}

/// The text that shows the working directory; `None` where it is not valid UTF-8.
pub open spec fn working_directory(client: ClientModel) -> Option<Seq<char>> {
    if valid_utf8(client.cwd) {
        Some("\"/"@ + decode_utf8(client.cwd) + "\" "@)
    } else {
        None
    }
}

/// The address of a port of the server, as a client reads it.
pub open spec fn passive_address(port: u16) -> Seq<char> {
    "127,0,0,1,"@ + numeral((port / 256) as nat) + ","@ + numeral((port % 256) as nat)
}

/// Says that a file is not there.
pub open spec fn missing(path: Seq<u8>) -> Seq<char> {
    "\""@ + decode_utf8(path) + "\" doesn't exist"@
}

/// Whether a session can take a request: it waits for one, and no data connection is open
/// when it is to end.
pub open spec fn ready(client: ClientModel, command: CommandModel) -> bool {
    client.stage is Idle && (command is Quit ==> !client.data_writer)
}

/// What a request does to a session, and the first action that it asks for.
pub open spec fn start(client: ClientModel, command: CommandModel) -> (ClientModel, ActionModel) {
    match command {
        CommandModel::Auth => reply(
            client,
            ResultCode::CommandNotImplemented,
            "Not implemented"@,
        ),
        CommandModel::Cwd(directory) => resolve(
            client,
            StageModel::CwdResolve(directory),
            join(client.cwd, encode_utf8(directory)),
        ),
        CommandModel::List(path) => if client.data_writer {
            resolve(
                client,
                StageModel::ListResolve,
                join(
                    client.cwd,
                    match path {
                        Some(path) => path,
                        None => seq![],
                    },
                ),
            )
        } else {
            refuse_transfer(client)
        },
        CommandModel::Mkd(path) => {
            let path = join(client.cwd, path);
            match parent(path) {
                Some(above) => resolve(client, StageModel::MkdResolve(path), above),
                None => reply(client, ResultCode::FileNotFound, "Couldn't create folder"@),
            }
        },
        CommandModel::NoOp => reply(client, ResultCode::CommandOkay, "Doing nothing"@),
        CommandModel::Port(port) => reply(
            ClientModel { data_port: Some(port), ..client },
            ResultCode::CommandOkay,
            "Data port is now "@ + numeral(port as nat),
        ),
        CommandModel::Pasv => if client.data_writer {
            reply(client, ResultCode::DataConnectionAlreadyOpen, "Already listening..."@)
        } else {
            (
                at(client, StageModel::PasvBind),
                ActionModel::Bind(
                    match client.data_port {
                        Some(port) => port,
                        None => 0,
                    },
                ),
            )
        },
        CommandModel::Pwd => match working_directory(client) {
            Some(message) => reply(client, ResultCode::PATHNAMECreated, message),
            None => reply(client, ResultCode::FileNotFound, "No such file or directory"@),
        },
        CommandModel::Quit => send(
            client,
            StageModel::QuitReply,
            ResultCode::ServiceClosingControlConnection,
            "Closing connection..."@,
        ),
        CommandModel::Retr(path) => if client.data_writer {
            let path = join(client.cwd, path);
            resolve(client, StageModel::RetrResolve(path), path)
        } else {
            refuse_transfer(client)
        },
        CommandModel::Rmd(directory) => resolve(
            client,
            StageModel::RmdResolve,
            join(client.cwd, directory),
        ),
        CommandModel::Stor(path) => if client.data_reader {
            send(
                client,
                StageModel::StorStart(join(client.cwd, path)),
                ResultCode::DataConnectionAlreadyOpen,
                "Starting to send file..."@,
            )
        } else {
            refuse_transfer(client)
        },
        CommandModel::Syst => reply(client, ResultCode::CommandOkay, "I won't tell!"@),
        CommandModel::Type(typ) => reply(
            ClientModel { transfer_type: typ, ..client },
            ResultCode::CommandOkay,
            "Transfer type changed successfully"@,
        ),
        CommandModel::CdUp => reply(
            match parent(client.cwd) {
                Some(above) => ClientModel { cwd: above, ..client },
                None => client,
            },
            ResultCode::CommandOkay,
            "Done"@,
        ),
        CommandModel::Unknown(verb) => reply(
            client,
            ResultCode::UnknownCommand,
            "\""@ + verb + "\": Not implemented"@,
        ),
        CommandModel::User(name) => if name.len() == 0 {
            reply(client, ResultCode::InvalidParameterOrArgument, "Invalid username"@)
        } else {
            reply(
                ClientModel { name: Some(name), ..client },
                ResultCode::UserloggedIn,
                "Welcome "@ + name + "!"@,
            )
        },
    }
}

/// Whether the month of a file that was looked at has a name.
pub open spec fn has_month(info: Option<FileInfoModel>) -> bool {
    info matches Some(info) ==> 0 <= info.time.month <= 11
}

/// Whether the month of each file that was looked at has a name.
pub open spec fn have_months(files: Seq<Option<FileInfoModel>>) -> bool {
    forall|k: int| 0 <= k < files.len() ==> has_month(#[trigger] files[k])
}

/// Whether an event can come while a session is in its stage: it is an outcome of the
/// action that the session asked for, and a path that has to be shown is valid UTF-8.
pub open spec fn accepts(client: ClientModel, event: EventModel) -> bool {
    match client.stage {
        StageModel::Idle => false,
        StageModel::Reply => event is Sent,
        StageModel::Refuse => event is Sent,
        StageModel::CwdResolve(_) => event is Canonical,
        StageModel::ListResolve => event is Canonical,
        StageModel::ListStart(_) => event is Sent,
        StageModel::ListCheck(_) => event is Checked,
        StageModel::ListRead => event matches EventModel::Entries(entries) && (
        entries matches Some(files) ==> have_months(files)),
        StageModel::ListInspect => event matches EventModel::Inspected(info) && has_month(info),
        StageModel::MkdResolve(_) => event is Canonical,
        StageModel::MkdCheck(_, _) => event is Checked,
        StageModel::MkdCreate => event is Created,
        StageModel::PasvBind => event is Bound,
        StageModel::PasvAnnounce => event is Sent,
        StageModel::PasvAccept => event is Connected,
        StageModel::QuitReply => event is Sent,
        StageModel::QuitClose => event is Closed,
        StageModel::RetrResolve(path) => event matches EventModel::Canonical(found) && (permitted(
            client,
            found,
        ) is None ==> valid_utf8(path)),
        StageModel::RetrCheck(place) => event matches EventModel::Checked(there) && (there
            || valid_utf8(place)),
        StageModel::RetrStart(_) => event is Sent,
        StageModel::RetrRead => event is Contents,
        StageModel::RmdResolve => event is Canonical,
        StageModel::RmdRemove => event is Removed,
        StageModel::StorStart(_) => event is Sent,
        StageModel::StorReceive(_) => event is Received,
        StageModel::StorWrite => event is Written,
        StageModel::Transfer => event is DataSent,
    }
}

/// The session waiting for the next request.
pub open spec fn finish(client: ClientModel) -> (ClientModel, ActionModel) {
    (at(client, StageModel::Idle), ActionModel::Done)
}

/// What the outcome of an action does to a session, and the next action that it asks for.
pub open spec fn advance(client: ClientModel, event: EventModel) -> (ClientModel, ActionModel)
    recommends
        accepts(client, event),
{
    match client.stage {
        StageModel::Idle => finish(client),
        StageModel::Reply => finish(client),
        StageModel::Refuse => finish_transfer(client),
        StageModel::CwdResolve(directory) => match permitted(client, event->Canonical_0) {
            Some(place) => reply(
                ClientModel { cwd: strip_prefix(place, client.server_root)->0, ..client },
                ResultCode::RequestedFileActionOkay,
                "Directory changed to \""@ + directory + "\""@,
            ),
            None => reply(client, ResultCode::FileNotFound, "No such file or directory"@),
        },
        StageModel::ListResolve => match permitted(client, event->Canonical_0) {
            Some(place) => send(
                client,
                StageModel::ListStart(place),
                ResultCode::DataConnectionAlreadyOpen,
                "Starting to list directory..."@,
            ),
            None => send(
                client,
                StageModel::Refuse,
                ResultCode::InvalidParameterOrArgument,
                "No such file or directory"@,
            ),
        },
        StageModel::ListStart(place) => (
            at(client, StageModel::ListCheck(place)),
            ActionModel::CheckDir(place),
        ),
        StageModel::ListCheck(place) => if event->Checked_0 {
            (at(client, StageModel::ListRead), ActionModel::ReadDir(place))
        } else {
            (at(client, StageModel::ListInspect), ActionModel::Inspect(place))
        },
        StageModel::ListRead => match event->Entries_0 {
            Some(files) => (
                at(client, StageModel::Transfer),
                ActionModel::SendData(listing(files)),
            ),
            None => reply(
                client,
                ResultCode::InvalidParameterOrArgument,
                "No such file or directory"@,
            ),
        },
        StageModel::ListInspect => (
            at(client, StageModel::Transfer),
            ActionModel::SendData(listing(seq![event->Inspected_0])),
        ),
        StageModel::MkdResolve(path) => match permitted(client, event->Canonical_0) {
            Some(place) => (
                at(client, StageModel::MkdCheck(place, path)),
                ActionModel::CheckDir(place),
            ),
            None => reply(client, ResultCode::FileNotFound, "Couldn't create folder"@),
        },
        StageModel::MkdCheck(place, path) => match file_name(path) {
            Some(name) if event->Checked_0 => (
                at(client, StageModel::MkdCreate),
                ActionModel::CreateDir(join(place, name)),
            ),
            _ => reply(client, ResultCode::FileNotFound, "Couldn't create folder"@),
        },
        StageModel::MkdCreate => if event->Created_0 {
            reply(client, ResultCode::PATHNAMECreated, "Folder successfully created!"@)
        } else {
            reply(client, ResultCode::FileNotFound, "Couldn't create folder"@)
        },
        StageModel::PasvBind => send(
            client,
            StageModel::PasvAnnounce,
            ResultCode::EnteringPassiveMode,
            passive_address(event->Bound_0),
        ),
        StageModel::PasvAnnounce => (at(client, StageModel::PasvAccept), ActionModel::Accept),
        StageModel::PasvAccept => if event->Connected_0 {
            finish(ClientModel { data_reader: true, data_writer: true, ..client })
        } else {
            finish(client)
        },
        StageModel::QuitReply => (at(client, StageModel::QuitClose), ActionModel::CloseControl),
        StageModel::QuitClose => finish(client),
        StageModel::RetrResolve(path) => match permitted(client, event->Canonical_0) {
            Some(place) => (
                at(client, StageModel::RetrCheck(place)),
                ActionModel::CheckFile(place),
            ),
            None => send(
                client,
                StageModel::Refuse,
                ResultCode::LocalErrorInProcessing,
                missing(path),
            ),
        },
        StageModel::RetrCheck(place) => if event->Checked_0 {
            send(
                client,
                StageModel::RetrStart(place),
                ResultCode::DataConnectionAlreadyOpen,
                "Starting to send file..."@,
            )
        } else {
            send(
                client,
                StageModel::Refuse,
                ResultCode::LocalErrorInProcessing,
                missing(place),
            )
        },
        StageModel::RetrStart(place) => (
            at(client, StageModel::RetrRead),
            ActionModel::ReadFile(place),
        ),
        StageModel::RetrRead => (
            at(client, StageModel::Transfer),
            ActionModel::SendData(event->Contents_0),
        ),
        StageModel::RmdResolve => match permitted(client, event->Canonical_0) {
            Some(place) => (at(client, StageModel::RmdRemove), ActionModel::RemoveDir(place)),
            None => reply(client, ResultCode::FileNotFound, "Couldn't remove folder"@),
        },
        StageModel::RmdRemove => if event->Removed_0 {
            reply(client, ResultCode::RequestedFileActionOkay, "Folder successfully removed"@)
        } else {
            reply(client, ResultCode::FileNotFound, "Couldn't remove folder"@)
        },
        StageModel::StorStart(path) => (
            ClientModel { data_reader: false, ..at(client, StageModel::StorReceive(path)) },
            ActionModel::ReceiveData,
        ),
        StageModel::StorReceive(path) => (
            at(client, StageModel::StorWrite),
            ActionModel::WriteFile(path, event->Received_0),
        ),
        StageModel::StorWrite => finish_transfer(client),
        StageModel::Transfer => finish_transfer(client),
    }
}

}
