//! The replies of the server.

use crate::text::numeral;
use vstd::prelude::*;
use vstd::string::*;

verus! {

/// What a reply tells the client.
#[derive(Clone, Copy, Debug, PartialEq, Eq, Structural)]
pub enum ResultCode {
    DataConnectionAlreadyOpen,
    CommandOkay,
    ServiceReadyForNewUser,
    ServiceClosingControlConnection,
    ClosingDataConnection,
    EnteringPassiveMode,
    UserloggedIn,
    RequestedFileActionOkay,
    PATHNAMECreated,
    ConnectionClosed,
    LocalErrorInProcessing,
    UnknownCommand,
    InvalidParameterOrArgument,
    CommandNotImplemented,
    FileNotFound,
}

/// The reply code of RFC 959.
pub open spec fn code_number(code: ResultCode) -> u32 {
    match code {
        ResultCode::DataConnectionAlreadyOpen => 125,
        ResultCode::CommandOkay => 200,
        ResultCode::ServiceReadyForNewUser => 220,
        ResultCode::ServiceClosingControlConnection => 221,
        ResultCode::ClosingDataConnection => 226,
        ResultCode::EnteringPassiveMode => 227,
        ResultCode::UserloggedIn => 230,
        ResultCode::RequestedFileActionOkay => 250,
        ResultCode::PATHNAMECreated => 257,
        ResultCode::ConnectionClosed => 426,
        ResultCode::LocalErrorInProcessing => 451,
        ResultCode::UnknownCommand => 500,
        ResultCode::InvalidParameterOrArgument => 501,
        ResultCode::CommandNotImplemented => 502,
        ResultCode::FileNotFound => 550,
    }
}

impl ResultCode {
    /// The reply code of RFC 959.
    pub fn number(self) -> (number: u32)
        ensures
            number == code_number(self),
    {
        match self {
            ResultCode::DataConnectionAlreadyOpen => 125,
            ResultCode::CommandOkay => 200,
            ResultCode::ServiceReadyForNewUser => 220,
            ResultCode::ServiceClosingControlConnection => 221,
            ResultCode::ClosingDataConnection => 226,
            ResultCode::EnteringPassiveMode => 227,
            ResultCode::UserloggedIn => 230,
            ResultCode::RequestedFileActionOkay => 250,
            ResultCode::PATHNAMECreated => 257,
            ResultCode::ConnectionClosed => 426,
            ResultCode::LocalErrorInProcessing => 451,
            ResultCode::UnknownCommand => 500,
            ResultCode::InvalidParameterOrArgument => 501,
            ResultCode::CommandNotImplemented => 502,
            ResultCode::FileNotFound => 550,
        }
    }
}

/// A reply on the control connection.
#[derive(Clone, Debug)]
pub struct Answer {
    pub code: ResultCode,
    pub message: String,
}

/// The mathematical counterpart of an [`Answer`].
#[verifier::ext_equal]
pub struct AnswerModel {
    pub code: ResultCode,
    pub message: Seq<char>,
}

impl View for Answer {
    type V = AnswerModel;

    open spec fn view(&self) -> AnswerModel {
        AnswerModel { code: self.code, message: self.message@ }
    }
}

impl Answer {
    /// The reply with the given code and message.
    pub fn new(code: ResultCode, message: &str) -> (answer: Answer)
        ensures
            answer@ == (AnswerModel { code, message: message@ }),
    {
        Answer { code, message: message.to_owned() }
    }
}

/// The line that carries a reply: the code, a space and the message where there is one,
/// and the end of the line.
pub open spec fn reply_line(answer: AnswerModel) -> Seq<char> {
    if answer.message.len() == 0 {
        numeral(code_number(answer.code) as nat) + "\r\n"@
    } else {
        numeral(code_number(answer.code) as nat) + " "@ + answer.message + "\r\n"@
    }
}

}
