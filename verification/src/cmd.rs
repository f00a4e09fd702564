//! The commands of the control connection and the request lines that carry them.

use crate::path::UnixPath;
use crate::text::{
    byte_value, is_utf8, parse_byte, same_bytes, split, split_bytes, utf8_text, COMMA, SPACE,
};
use vstd::prelude::*;
use vstd::string::*;
use vstd::utf8::*;

verus! {

/// How a file's bytes are to be read.
#[derive(Clone, Copy, Debug, PartialEq, Eq, Structural)]
pub enum TransferType {
    Ascii,
    Image,
    Unknown,
}

impl From<u8> for TransferType {
    fn from(c: u8) -> (typ: TransferType) {
        if c == 'A' as u8 {
            TransferType::Ascii
        } else if c == 'I' as u8 {
            TransferType::Image
        } else {
            TransferType::Unknown
        }
    }
}

impl vstd::std_specs::convert::FromSpecImpl<u8> for TransferType {
    open spec fn obeys_from_spec() -> bool {
        true
    }

    open spec fn from_spec(c: u8) -> TransferType {
        if c == 'A' as u8 {
            TransferType::Ascii
        } else if c == 'I' as u8 {
            TransferType::Image
        } else {
            TransferType::Unknown
        }
    }
}

/// A request of the client.
///
/// `Mkd`, `Rmd` and `NoOp` are requests of a session for which there is no request line.
#[derive(Clone, Debug)]
pub enum Command {
    Auth,
    Cwd(String),
    List(Option<UnixPath>),
    Mkd(UnixPath),
    NoOp,
    Port(u16),
    Pasv,
    Pwd,
    Quit,
    Retr(UnixPath),
    Rmd(UnixPath),
    Stor(UnixPath),
    Syst,
    Type(TransferType),
    CdUp,
    /// A verb that is none of the above, in upper case.
    Unknown(String),
    User(String),
}

/// The mathematical counterpart of a [`Command`].
#[verifier::ext_equal]
pub enum CommandModel {
    Auth,
    Cwd(Seq<char>),
    List(Option<Seq<u8>>),
    Mkd(Seq<u8>),
    NoOp,
    Port(u16),
    Pasv,
    Pwd,
    Quit,
    Retr(Seq<u8>),
    Rmd(Seq<u8>),
    Stor(Seq<u8>),
    Syst,
    Type(TransferType),
    CdUp,
    Unknown(Seq<char>),
    User(Seq<char>),
}

impl View for Command {
    type V = CommandModel;

    open spec fn view(&self) -> CommandModel {
        match *self {
            Command::Auth => CommandModel::Auth,
            Command::Cwd(directory) => CommandModel::Cwd(directory@),
            Command::List(None) => CommandModel::List(None),
            Command::List(Some(path)) => CommandModel::List(Some(path@)),
            Command::Mkd(path) => CommandModel::Mkd(path@),
            Command::NoOp => CommandModel::NoOp,
            Command::Port(port) => CommandModel::Port(port),
            Command::Pasv => CommandModel::Pasv,
            Command::Pwd => CommandModel::Pwd,
            Command::Quit => CommandModel::Quit,
            Command::Retr(path) => CommandModel::Retr(path@),
            Command::Rmd(path) => CommandModel::Rmd(path@),
            Command::Stor(path) => CommandModel::Stor(path@),
            Command::Syst => CommandModel::Syst,
            Command::Type(typ) => CommandModel::Type(typ),
            Command::CdUp => CommandModel::CdUp,
            Command::Unknown(verb) => CommandModel::Unknown(verb@),
            Command::User(name) => CommandModel::User(name@),
        }
    }
}

/// The verb that stands for a command; `UNKN`, which is none, where it is unknown.
pub open spec fn verb_name(command: CommandModel) -> Seq<char> {
    match command {
        CommandModel::Auth => "AUTH"@,
        CommandModel::Cwd(_) => "CWD"@,
        CommandModel::List(_) => "LIST"@,
        CommandModel::Mkd(_) => "MKD"@,
        CommandModel::NoOp => "NOOP"@,
        CommandModel::Port(_) => "PORT"@,
        CommandModel::Pasv => "PASV"@,
        CommandModel::Pwd => "PWD"@,
        CommandModel::Quit => "QUIT"@,
        CommandModel::Retr(_) => "RETR"@,
        CommandModel::Rmd(_) => "RMD"@,
        CommandModel::Stor(_) => "STOR"@,
        CommandModel::Syst => "SYST"@,
        CommandModel::Type(_) => "TYPE"@,
        CommandModel::CdUp => "CDUP"@,
        CommandModel::Unknown(_) => "UNKN"@,
        CommandModel::User(_) => "USER"@,
    }
}

impl AsRef<str> for Command {
    fn as_ref(&self) -> (verb: &str)
        ensures
            verb@ == verb_name(self@),
    {
        match self {
            Command::Auth => "AUTH",
            Command::Cwd(_) => "CWD",
            Command::List(_) => "LIST",
            Command::Mkd(_) => "MKD",
            Command::NoOp => "NOOP",
            Command::Port(_) => "PORT",
            Command::Pasv => "PASV",
            Command::Pwd => "PWD",
            Command::Quit => "QUIT",
            Command::Retr(_) => "RETR",
            Command::Rmd(_) => "RMD",
            Command::Stor(_) => "STOR",
            Command::Syst => "SYST",
            Command::Type(_) => "TYPE",
            Command::CdUp => "CDUP",
            Command::Unknown(_) => "UNKN",
            Command::User(_) => "USER",
        }
    }
}

/// The byte with an ASCII lower-case letter made upper case.
pub open spec fn uppercase_byte(byte: u8) -> u8 {
    if 'a' as u8 <= byte && byte <= 'z' as u8 {
        (byte - 32) as u8
    } else {
        byte
    }
}

/// The bytes with the ASCII lower-case letters made upper case.
pub open spec fn uppercase(bytes: Seq<u8>) -> Seq<u8> {
    bytes.map_values(|byte: u8| uppercase_byte(byte))
}

/// Makes the ASCII lower-case letters of `data` upper case.
pub fn to_uppercase(data: &mut [u8])
    ensures
        final(data)@ == uppercase(old(data)@),
{
    let mut at: usize = 0;
    while at < data.len()
        invariant
            at <= data@.len(),
            data@.len() == old(data)@.len(),
            forall|k: int| 0 <= k < at ==> data@[k] == uppercase_byte(old(data)@[k]),
            forall|k: int| at <= k < data@.len() ==> data@[k] == old(data)@[k],
        decreases data@.len() - at,
    {
        let byte: u8 = data[at];
        if byte >= 'a' as u8 && byte <= 'z' as u8 {
            data[at] = byte - 32;
        }
        at = at + 1;
    }
    assert(data@ =~= uppercase(old(data)@));
}

/// Why a request line stands for no command.
#[derive(Clone, Copy, Debug, PartialEq, Eq, Structural)]
pub enum LineFault {
    /// The parameter is not valid UTF-8.
    NotUtf8,
    /// The verb needs a parameter, and there is none.
    NoParameter,
    /// The verb needs a parameter, and it is empty.
    EmptyParameter,
    /// The parameter does not hold six numbers below 256.
    InvalidAddress,
    /// The port is not above 1000.
    ReservedPort,
    /// The transfer type is neither ASCII nor image.
    UnknownTransferType,
}

/// The highest port that a client may not name.
pub const LAST_RESERVED_PORT: u16 = 1000;

/// The verb of a request line: what stands before the first space, in upper case.
pub open spec fn line_verb(line: Seq<u8>) -> Seq<u8> {
    uppercase(split(line, SPACE)[0])
}

/// The parameter of a request line: what stands between the first two spaces.
pub open spec fn line_parameter(line: Seq<u8>) -> Option<Seq<u8>> {
    if split(line, SPACE).len() > 1 {
        Some(split(line, SPACE)[1])
    } else {
        None
    }
}

/// Whether the bytes spell the given name.
pub open spec fn spells(bytes: Seq<u8>, name: &str) -> bool {
    bytes == encode_utf8(name@)
}

/// The numbers among the pieces, in order; pieces that are none are passed over.
pub open spec fn numbers(pieces: Seq<Seq<u8>>) -> Seq<u8>
    decreases pieces.len(),
{
    if pieces.len() == 0 {
        seq![]
    } else {
        match byte_value(pieces.last()) {
            Some(number) => numbers(pieces.drop_last()).push(number),
            None => numbers(pieces.drop_last()),
        }
    }
}

/// The port in an address of the form `h,h,h,h,p,p`.
pub open spec fn address_port(address: Seq<u8>) -> int {
    numbers(split(address, COMMA))[4] * 256 + numbers(split(address, COMMA))[5]
}

/// What is wrong with the parameter of `PORT`.
pub open spec fn address_fault(parameter: Option<Seq<u8>>) -> Option<LineFault> {
    match parameter {
        None => Some(LineFault::NoParameter),
        Some(address) => {
            let pieces = split(address, COMMA);
            if exists|k: int| 0 <= k < pieces.len() && !valid_utf8(#[trigger] pieces[k]) {
                Some(LineFault::NotUtf8)
            } else if numbers(pieces).len() != 6 {
                Some(LineFault::InvalidAddress)
            } else if address_port(address) <= LAST_RESERVED_PORT {
                Some(LineFault::ReservedPort)
            } else {
                None
            }
        },
    }
}

/// What is wrong with a parameter that may be left out and is text otherwise.
pub open spec fn text_fault(parameter: Option<Seq<u8>>) -> Option<LineFault> {
    match parameter {
        None => None,
        Some(bytes) => if valid_utf8(bytes) {
            None
        } else {
            Some(LineFault::NotUtf8)
        },
    }
}

/// What is wrong with a parameter that has to be there and is text.
pub open spec fn required_text_fault(parameter: Option<Seq<u8>>) -> Option<LineFault> {
    if parameter is None {
        Some(LineFault::NoParameter)
    } else {
        text_fault(parameter)
    }
}

/// What is wrong with the parameter of `TYPE`.
pub open spec fn type_fault(parameter: Option<Seq<u8>>) -> Option<LineFault> {
    match parameter {
        None => Some(LineFault::NoParameter),
        Some(bytes) => if bytes.len() == 0 {
            Some(LineFault::EmptyParameter)
        } else if bytes[0] != 'A' as u8 && bytes[0] != 'I' as u8 {
            Some(LineFault::UnknownTransferType)
        } else {
            None
        },
    }
}

/// Why a request line stands for no command; `None` where it stands for one.
pub open spec fn line_fault(line: Seq<u8>) -> Option<LineFault> {
    let verb = line_verb(line);
    let parameter = line_parameter(line);
    if spells(verb, "CWD") || spells(verb, "LIST") {
        text_fault(parameter)
    } else if spells(verb, "PORT") {
        address_fault(parameter)
    } else if spells(verb, "RETR") || spells(verb, "STOR") {
        required_text_fault(parameter)
    } else if spells(verb, "TYPE") {
        type_fault(parameter)
    } else if spells(verb, "USER") {
        text_fault(parameter)
    } else {
        None
    }
}

/// The text of a parameter; empty where it was left out.
pub open spec fn text_or_empty(parameter: Option<Seq<u8>>) -> Seq<char> {
    match parameter {
        None => seq![],
        Some(bytes) => decode_utf8(bytes),
    }
}

/// The command that a request line without a fault stands for.
pub open spec fn line_command(line: Seq<u8>) -> CommandModel
    recommends
        line_fault(line) is None,
{
    let verb = line_verb(line);
    let parameter = line_parameter(line);
    if spells(verb, "AUTH") {
        CommandModel::Auth
    } else if spells(verb, "CWD") {
        CommandModel::Cwd(text_or_empty(parameter))
    } else if spells(verb, "LIST") {
        CommandModel::List(parameter)
    } else if spells(verb, "PASV") {
        CommandModel::Pasv
    } else if spells(verb, "PORT") {
        CommandModel::Port(address_port(parameter->0) as u16)
    } else if spells(verb, "PWD") {
        CommandModel::Pwd
    } else if spells(verb, "QUIT") {
        CommandModel::Quit
    } else if spells(verb, "RETR") {
        CommandModel::Retr(parameter->0)
    } else if spells(verb, "STOR") {
        CommandModel::Stor(parameter->0)
    } else if spells(verb, "SYST") {
        CommandModel::Syst
    } else if spells(verb, "TYPE") {
        CommandModel::Type(
            if parameter->0[0] == 'A' as u8 {
                TransferType::Ascii
            } else {
                TransferType::Image
            },
        )
    } else if spells(verb, "CDUP") {
        CommandModel::CdUp
    } else if spells(verb, "USER") {
        CommandModel::User(text_or_empty(parameter))
    } else {
        CommandModel::Unknown(
            if valid_utf8(verb) {
                decode_utf8(verb)
            } else {
                seq![]
            },
        )
    }
}

fn is_verb(verb: &[u8], name: &str) -> (same: bool)
    ensures
        same == spells(verb@, name),
{
    same_bytes(verb, name.as_bytes())
}

/// The verb and the parameter of a request line.
fn line_parts(line: &[u8]) -> (parts: (Vec<u8>, Option<Vec<u8>>))
    ensures
        parts.0@ == line_verb(line@),
        match parts.1 {
            Some(bytes) => line_parameter(line@) == Some(bytes@),
            None => line_parameter(line@) is None,
        },
{
    let mut pieces = split_bytes(line, SPACE);
    let ghost all = pieces@;
    let parameter = if pieces.len() > 1 {
        Some(pieces.swap_remove(1))
    } else {
        None
    };
    let mut verb = pieces.swap_remove(0);
    assert(verb@ == all[0]@);
    to_uppercase(&mut verb);
    (verb, parameter)
}

/// The numbers of a comma-separated address, or `None` where a piece is not valid UTF-8.
fn address_numbers(address: &[u8]) -> (result: Option<Vec<u8>>)
    ensures
        result is None <==> exists|k: int|
            0 <= k < split(address@, COMMA).len() && !valid_utf8(
                #[trigger] split(address@, COMMA)[k],
            ),
        result matches Some(found) ==> found@ == numbers(split(address@, COMMA)),
{
    let pieces = split_bytes(address, COMMA);
    let ghost parts = split(address@, COMMA);
    let mut found: Vec<u8> = Vec::new();
    let mut at: usize = 0;
    assert(parts.take(0) =~= seq![]);
    while at < pieces.len()
        invariant
            at <= pieces@.len(),
            parts == split(address@, COMMA),
            pieces@.len() == parts.len(),
            forall|k: int| 0 <= k < pieces@.len() ==> (#[trigger] pieces@[k])@ == parts[k],
            forall|k: int| 0 <= k < at ==> valid_utf8(#[trigger] parts[k]),
            found@ == numbers(parts.take(at as int)),
        decreases pieces@.len() - at,
    {
        let piece = pieces[at].as_slice();
        assert(piece@ == parts[at as int]);
        if !is_utf8(piece) {
            return None;
        }
        assert(parts.take(at + 1).drop_last() =~= parts.take(at as int));
        if let Some(number) = parse_byte(piece) {
            found.push(number);
        }
        at = at + 1;
    }
    assert(parts.take(at as int) =~= parts);
    Some(found)
}

fn parameter_fault(parameter: &Option<Vec<u8>>) -> (fault: Option<LineFault>)
    ensures
        fault == text_fault(
            match *parameter {
                Some(bytes) => Some(bytes@),
                None => None,
            },
        ),
{
    match parameter {
        None => None,
        Some(bytes) => if is_utf8(bytes.as_slice()) {
            None
        } else {
            Some(LineFault::NotUtf8)
        },
    }
}

impl Command {
    /// Why a request line stands for no command; `None` where it stands for one.
    pub fn fault(line: &[u8]) -> (fault: Option<LineFault>)
        ensures
            fault == line_fault(line@),
    {
        let (verb, parameter) = line_parts(line);
        let verb = verb.as_slice();
        if is_verb(verb, "CWD") || is_verb(verb, "LIST") {
            parameter_fault(&parameter)
        } else if is_verb(verb, "PORT") {
            match parameter {
                None => Some(LineFault::NoParameter),
                Some(address) => match address_numbers(address.as_slice()) {
                    None => Some(LineFault::NotUtf8),
                    Some(found) => if found.len() != 6 {
                        Some(LineFault::InvalidAddress)
                    } else if found[4] as u16 * 256 + found[5] as u16 <= LAST_RESERVED_PORT {
                        Some(LineFault::ReservedPort)
                    } else {
                        None
                    },
                },
            }
        } else if is_verb(verb, "RETR") || is_verb(verb, "STOR") {
            if parameter.is_none() {
                Some(LineFault::NoParameter)
            } else {
                parameter_fault(&parameter)
            }
        } else if is_verb(verb, "TYPE") {
            match parameter {
                None => Some(LineFault::NoParameter),
                Some(bytes) => if bytes.len() == 0 {
                    Some(LineFault::EmptyParameter)
                } else {
                    match TransferType::from(bytes[0]) {
                        TransferType::Unknown => Some(LineFault::UnknownTransferType),
                        _ => None,
                    }
                },
            }
        } else if is_verb(verb, "USER") {
            parameter_fault(&parameter)
        } else {
            None
        }
    }

    /// Reads a request line.
    pub fn new(input: Vec<u8>) -> (result: std::io::Result<Command>)
        requires
            line_fault(input@) is None,
        ensures
            result is Ok,
            result->Ok_0@ == line_command(input@),
    {
        let (verb, data) = line_parts(input.as_slice());
        let name = verb.as_slice();
        let command = if is_verb(name, "AUTH") {
            Command::Auth
        } else if is_verb(name, "CWD") {
            Command::Cwd(text_of(data))
        } else if is_verb(name, "LIST") {
            match data {
                Some(bytes) => Command::List(Some(UnixPath::new(bytes))),
                None => Command::List(None),
            }
        } else if is_verb(name, "PASV") {
            Command::Pasv
        } else if is_verb(name, "PORT") {
            let address = data.unwrap();
            let found = address_numbers(address.as_slice()).unwrap();
            Command::Port(found[4] as u16 * 256 + found[5] as u16)
        } else if is_verb(name, "PWD") {
            Command::Pwd
        } else if is_verb(name, "QUIT") {
            Command::Quit
        } else if is_verb(name, "RETR") {
            Command::Retr(UnixPath::new(data.unwrap()))
        } else if is_verb(name, "STOR") {
            Command::Stor(UnixPath::new(data.unwrap()))
        } else if is_verb(name, "SYST") {
            Command::Syst
        } else if is_verb(name, "TYPE") {
            let bytes = data.unwrap();
            Command::Type(TransferType::from(bytes[0]))
        } else if is_verb(name, "CDUP") {
            Command::CdUp
        } else if is_verb(name, "USER") {
            Command::User(text_of(data))
        } else {
            match utf8_text(verb) {
                Some(text) => Command::Unknown(text),
                None => Command::Unknown(String::new()),
            }
        };
        Ok(command)
    }
}

/// The text of a parameter that is valid UTF-8; empty where it was left out.
fn text_of(parameter: Option<Vec<u8>>) -> (text: String)
    requires
        parameter matches Some(bytes) ==> valid_utf8(bytes@),
    ensures
        text@ == text_or_empty(
            match parameter {
                Some(bytes) => Some(bytes@),
                None => None,
            },
        ),
{
    match parameter {
        Some(bytes) => utf8_text(bytes).unwrap(),
        None => String::new(),
    }
}

}
