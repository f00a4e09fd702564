//! The codecs of the control connection and of the data connection.

use crate::buffer::{bytes_of, contents, extend, has_room, split_to, MAX_LENGTH};
use crate::cmd::{line_command, line_fault, Command, CommandModel, LineFault};
use crate::ftp::{reply_line, Answer, AnswerModel};
use crate::line_laws::{law_data_reads_back, law_reply_is_one_line};
use crate::text::{decimal, is_utf8, part, utf8_text};
use bytes::BytesMut;
use vstd::prelude::*;
use vstd::slice::slice_to_vec;
use vstd::string::*;
use vstd::utf8::*;

verus! {

/// Carriage return.
pub const CR: u8 = 13;

/// Line feed.
pub const LF: u8 = 10;

/// Frames request lines and reply lines.
pub struct FtpCodec;

/// Frames the text of a data connection.
pub struct StringCodec;

/// Whether the end of a line, a carriage return and a line feed, stands at `at`.
pub open spec fn ends_line(bytes: Seq<u8>, at: int) -> bool {
    0 <= at && at + 1 < bytes.len() && bytes[at] == CR && bytes[at + 1] == LF
}

/// The length of the first complete line in the bytes.
pub open spec fn first_line(bytes: Seq<u8>) -> Option<int> {
    first_line_from(bytes, 0)
}

/// The first index at or after `from` at which a line ends.
pub open spec fn first_line_from(bytes: Seq<u8>, from: int) -> Option<int>
    decreases bytes.len() - from,
{
    if from >= bytes.len() {
        None
    } else if ends_line(bytes, from) {
        Some(from)
    } else {
        first_line_from(bytes, from + 1)
    }
}

/// The first complete line ends at a line end, and no line ends before it.
pub proof fn lemma_first_line_from(bytes: Seq<u8>, from: int)
    requires
        0 <= from,
    ensures
        match first_line_from(bytes, from) {
            Some(at) => from <= at && ends_line(bytes, at) && forall|k: int|
                from <= k < at ==> !ends_line(bytes, k),
            None => forall|k: int| from <= k ==> !ends_line(bytes, k),
        },
    decreases bytes.len() - from,
{
    if from < bytes.len() && !ends_line(bytes, from) {
        lemma_first_line_from(bytes, from + 1);
    }
}

/// A line end with none before it is where the first line ends.
pub proof fn lemma_first_line_unique(bytes: Seq<u8>, from: int, at: int)
    requires
        0 <= from <= at,
        ends_line(bytes, at),
        forall|k: int| from <= k < at ==> !ends_line(bytes, k),
    ensures
        first_line_from(bytes, from) == Some(at),
    decreases at - from,
{
    if from < at {
        lemma_first_line_unique(bytes, from + 1, at);
    }
}

/// Whether a line ends within the text.
pub open spec fn has_line_end(text: Seq<char>) -> bool {
    exists|k: int| 0 <= k && k + 1 < text.len() && #[trigger] text[k] == '\r' && text[k + 1] == '\n'
}

/// Whether the bytes are one line: one ends at their end, and none before it.
pub open spec fn is_line(bytes: Seq<u8>) -> bool {
    bytes.len() >= 2 && forall|k: int| #[trigger] ends_line(bytes, k) <==> k == bytes.len() - 2
}

/// The complete lines in the bytes, without their ends.
pub open spec fn lines(bytes: Seq<u8>) -> Seq<Seq<u8>>
    decreases bytes.len(),
{
    match first_line(bytes) {
        Some(at) if 0 <= at && at + 2 <= bytes.len() => seq![bytes.take(at)] + lines(
            bytes.skip(at + 2),
        ),
        _ => seq![],
    }
}

/// What stands behind the last complete line in the bytes.
pub open spec fn left_over(bytes: Seq<u8>) -> Seq<u8>
    decreases bytes.len(),
{
    match first_line(bytes) {
        Some(at) if 0 <= at && at + 2 <= bytes.len() => left_over(bytes.skip(at + 2)),
        _ => bytes,
    }
}

/// The command of the first complete line in the bytes.
pub open spec fn request_read(bytes: Seq<u8>) -> Option<CommandModel> {
    match first_line(bytes) {
        Some(at) => Some(line_command(bytes.take(at))),
        None => None,
    }
}

/// What is left of the bytes when the first complete line and its end are taken off.
pub open spec fn request_left(bytes: Seq<u8>) -> Seq<u8> {
    match first_line(bytes) {
        Some(at) => bytes.skip(at + 2),
        None => bytes,
    }
}

/// The bytes with the line of a reply behind them.
pub open spec fn reply_written(held: Seq<u8>, answer: AnswerModel) -> Seq<u8> {
    held + encode_utf8(reply_line(answer))
}

/// The bytes with text behind them.
pub open spec fn data_written(held: Seq<u8>, data: Seq<char>) -> Seq<u8> {
    held + encode_utf8(data)
}

/// The text of the bytes, where there are any.
pub open spec fn data_read(held: Seq<u8>) -> Option<Seq<char>>
    recommends
        valid_utf8(held),
{
    if held.len() == 0 {
        None
    } else {
        Some(decode_utf8(held))
    }
}

/// The index at which the first line in the buffer ends.
pub fn find_crlf(buf: &BytesMut) -> (index: Option<usize>)
    ensures
        match index {
            Some(at) => first_line(contents(*buf)) == Some(at as int),
            None => first_line(contents(*buf)) is None,
        },
{
    let bytes = bytes_of(buf);
    let mut at: usize = 0;
    while at < bytes.len()
        invariant
            at <= bytes@.len(),
            bytes@ == contents(*buf),
            first_line(bytes@) == first_line_from(bytes@, at as int),
        decreases bytes@.len() - at,
    {
        if at + 1 < bytes.len() && bytes[at] == CR && bytes[at + 1] == LF {
            return Some(at);
        }
        at = at + 1;
    }
    None
}

/// The line that carries a reply.
fn reply_text(answer: &Answer) -> (line: String)
    ensures
        line@ == reply_line(answer@),
{
    let mut line = decimal(answer.code.number() as u64);
    if !answer.message.as_str().is_empty() {
        line.append(" ");
        line.append(answer.message.as_str());
    }
    line.append("\r\n");
    assert(line@ =~= reply_line(answer@));
    line
}

impl FtpCodec {
    /// Why the first line in the buffer stands for no command; `None` where it stands for
    /// one or where there is no complete line.
    pub fn fault(&self, buf: &BytesMut) -> (fault: Option<LineFault>)
        ensures
            fault == (match first_line(contents(*buf)) {
                Some(at) => line_fault(contents(*buf).take(at)),
                None => None,
            }),
    {
        match find_crlf(buf) {
            Some(index) => {
                proof {
                    lemma_first_line_from(contents(*buf), 0);
                }
                let line = part(bytes_of(buf), 0, index);
                assert(line@ =~= contents(*buf).take(index as int));
                Command::fault(line.as_slice())
            },
            None => None,
        }
    }

    /// Takes the first complete line off the buffer and reads it.
    pub fn decode(&mut self, buf: &mut BytesMut) -> (result: std::io::Result<Option<Command>>)
        requires
            first_line(contents(*old(buf))) matches Some(at) ==> line_fault(
                contents(*old(buf)).take(at),
            ) is None,
        ensures
            result is Ok,
            match result->Ok_0 {
                Some(command) => request_read(contents(*old(buf))) == Some(command@),
                None => request_read(contents(*old(buf))) is None,
            },
            contents(*final(buf)) == request_left(contents(*old(buf))),
    {
        if let Some(index) = find_crlf(buf) {
            proof {
                lemma_first_line_from(contents(*buf), 0);
            }
            let line = split_to(buf, index);
            let _line_end = split_to(buf, 2);
            assert(contents(*buf) =~= contents(*old(buf)).skip(index + 2));
            match Command::new(slice_to_vec(bytes_of(&line))) {
                Ok(command) => Ok(Some(command)),
                Err(error) => Err(error),
            }
        } else {
            Ok(None)
        }
    }

    /// Whether the buffer can take the line of a reply.
    pub fn has_room(&self, answer: &Answer, buf: &BytesMut) -> (room: bool)
        ensures
            room == (contents(*buf).len() + encode_utf8(reply_line(answer@)).len() <= MAX_LENGTH),
    {
        has_room(buf, reply_text(answer).as_str().as_bytes().len())
    }

    /// Appends the line of a reply to the buffer: one line, unless one ends within the message.
    pub fn encode(&mut self, answer: Answer, buf: &mut BytesMut) -> (result: std::io::Result<()>)
        requires
            contents(*old(buf)).len() + encode_utf8(reply_line(answer@)).len() <= MAX_LENGTH,
        ensures
            result is Ok,
            contents(*final(buf)) == reply_written(contents(*old(buf)), answer@),
            !has_line_end(answer@.message) ==> is_line(
                contents(*final(buf)).skip(contents(*old(buf)).len() as int),
            ),
    {
        let ghost line = encode_utf8(reply_line(answer@));
        proof {
            assert(reply_written(contents(*buf), answer@).skip(contents(*buf).len() as int)
                =~= line);
            if !has_line_end(answer@.message) {
                law_reply_is_one_line(answer@);
            }
        }
        extend(buf, reply_text(&answer).as_str().as_bytes());
        Ok(())
    }
}

impl StringCodec {
    /// Whether all that is in the buffer is text.
    pub fn is_text(&self, buf: &BytesMut) -> (text: bool)
        ensures
            text == valid_utf8(contents(*buf)),
    {
        is_utf8(bytes_of(buf))
    }

    /// Reads all that is in the buffer as text. The buffer keeps it.
    pub fn decode(&mut self, buf: &mut BytesMut) -> (result: std::io::Result<Option<String>>)
        requires
            valid_utf8(contents(*old(buf))),
        ensures
            result is Ok,
            match result->Ok_0 {
                Some(data) => data_read(contents(*old(buf))) == Some(data@),
                None => data_read(contents(*old(buf))) is None,
            },
            *final(buf) == *old(buf),
    {
        let bytes = bytes_of(buf);
        if bytes.len() == 0 {
            return Ok(None);
        }
        let data = utf8_text(slice_to_vec(bytes)).unwrap();
        Ok(Some(data))
    }

    /// Whether the buffer can take the text.
    pub fn has_room(&self, data: &String, buf: &BytesMut) -> (room: bool)
        ensures
            room == (contents(*buf).len() + encode_utf8(data@).len() <= MAX_LENGTH),
    {
        has_room(buf, data.as_str().as_bytes().len())
    }

    /// Appends text to the buffer. What was text before is that text and then this one.
    pub fn encode(&mut self, data: String, buf: &mut BytesMut) -> (result: std::io::Result<()>)
        requires
            contents(*old(buf)).len() + encode_utf8(data@).len() <= MAX_LENGTH,
        ensures
            result is Ok,
            contents(*final(buf)) == data_written(contents(*old(buf)), data@),
            valid_utf8(contents(*old(buf))) ==> {
                &&& valid_utf8(contents(*final(buf)))
                &&& decode_utf8(contents(*final(buf))) == decode_utf8(contents(*old(buf))) + data@
            },
            contents(*old(buf)).len() == 0 && data@.len() > 0 ==> data_read(contents(*final(buf)))
                == Some(data@),
    {
        proof {
            if valid_utf8(contents(*buf)) {
                law_data_reads_back(contents(*buf), data@);
            }
            if contents(*buf).len() == 0 {
                assert(contents(*buf) =~= seq![]);
                law_data_reads_back(seq![], data@);
            }
        }
        extend(buf, data.as_str().as_bytes());
        Ok(())
    }
}

}
