//! What holds of request lines, reply lines and the codecs.

use crate::cmd::{
    address_port, line_command, line_fault, line_parameter, line_verb, numbers,
    uppercase, uppercase_byte, verb_name, CommandModel, LAST_RESERVED_PORT,
};
use crate::codec::{
    data_read, data_written, ends_line, first_line, has_line_end, is_line, left_over,
    lemma_first_line_from, lemma_first_line_unique, lines, reply_written, request_left,
    request_read, CR, LF,
};
use crate::ftp::{code_number, reply_line, AnswerModel, ResultCode};
use crate::session::{start, ClientModel};
use crate::text::{
    digit, find_from, lemma_byte_value, lemma_encode_concat, lemma_find_from,
    lemma_find_from_unique, lemma_numeral, lemma_split_first, lemma_split_same_tail, numeral,
    split, split_from, COMMA, SPACE,
};
use vstd::prelude::*;
use vstd::utf8::*;

verus! {

/// Letters that are upper case stay as they are.
pub proof fn law_uppercase_idempotent(bytes: Seq<u8>)
    ensures
        uppercase(uppercase(bytes)) == uppercase(bytes),
{
    assert(uppercase(uppercase(bytes)) =~= uppercase(bytes));
}

/// The case of the letters of the verb makes no difference.
pub proof fn law_verb_case(line: Seq<u8>)
    ensures
        ({
            let end = find_from(line, SPACE, 0);
            let loud = uppercase(line.take(end)) + line.skip(end);
            &&& line_fault(loud) == line_fault(line)
            &&& line_command(loud) == line_command(line)
        }),
{
    let end = find_from(line, SPACE, 0);
    lemma_find_from(line, SPACE, 0);
    let verb = line.take(end);
    let loud = uppercase(verb) + line.skip(end);
    assert forall|k: int| 0 <= k < end implies loud[k] != SPACE by {
        assert(loud[k] == uppercase_byte(line[k]));
    }
    assert(end < line.len() ==> loud[end] == line[end]);
    lemma_find_from_unique(loud, SPACE, 0, end);
    assert(loud.subrange(0, end) =~= uppercase(verb));
    assert(line.subrange(0, end) =~= verb);
    law_uppercase_idempotent(verb);
    if end < line.len() {
        assert(loud.skip(end + 1) =~= line.skip(end + 1));
        lemma_split_same_tail(loud, line, SPACE, end + 1);
        assert(split(loud, SPACE) =~= seq![uppercase(verb)] + split_from(line, SPACE, end + 1));
        assert(split(line, SPACE) =~= seq![verb] + split_from(line, SPACE, end + 1));
        assert(split(loud, SPACE)[0] == uppercase(verb));
        assert(split(line, SPACE)[0] == verb);
        assert(line_parameter(loud) == line_parameter(line));
    }
    assert(line_verb(loud) == line_verb(line));
}

/// What stands behind the second space of a line makes no difference.
pub proof fn law_rest_of_line_ignored(verb: Seq<u8>, parameter: Seq<u8>, rest: Seq<u8>)
    requires
        forall|k: int| 0 <= k < verb.len() ==> verb[k] != SPACE,
        forall|k: int| 0 <= k < parameter.len() ==> parameter[k] != SPACE,
    ensures
        ({
            let line = verb.push(SPACE) + parameter;
            let longer = verb.push(SPACE) + (parameter.push(SPACE) + rest);
            &&& line_fault(longer) == line_fault(line)
            &&& line_command(longer) == line_command(line)
            &&& line_verb(line) == uppercase(verb)
            &&& line_parameter(line) == Some(parameter)
        }),
{
    let line = verb.push(SPACE) + parameter;
    let longer = verb.push(SPACE) + (parameter.push(SPACE) + rest);
    lemma_split_first(verb, SPACE, parameter);
    lemma_split_first(parameter, SPACE, rest);
    lemma_split_first(verb, SPACE, parameter.push(SPACE) + rest);
    assert(split(line, SPACE) =~= seq![verb, parameter]);
    assert(split(longer, SPACE)[0] == verb);
    assert(split(longer, SPACE)[1] == parameter);
}

/// A line that stands for a command begins with the name of that command, unless the verb is
/// unknown.
pub proof fn law_command_has_its_verb(line: Seq<u8>)
    ensures
        line_command(line) is Unknown || line_verb(line) == encode_utf8(
            verb_name(line_command(line)),
        ),
{
}

/// The port that a line names is above those that are reserved.
pub proof fn law_port_not_reserved(line: Seq<u8>)
    requires
        line_fault(line) is None,
        line_command(line) is Port,
    ensures
        line_command(line)->Port_0 > LAST_RESERVED_PORT,
        line_command(line)->Port_0 == address_port(line_parameter(line)->0),
{
}

/// The paths that a line names are text.
pub proof fn law_paths_are_text(line: Seq<u8>)
    requires
        line_fault(line) is None,
    ensures
        line_command(line) matches CommandModel::Retr(path) ==> valid_utf8(path),
        line_command(line) matches CommandModel::Stor(path) ==> valid_utf8(path),
        line_command(line) matches CommandModel::List(Some(path)) ==> valid_utf8(path),
{
}

/// The numbers among two lists of pieces in a row.
proof fn lemma_numbers_concat(first: Seq<Seq<u8>>, second: Seq<Seq<u8>>)
    ensures
        numbers(first + second) == numbers(first) + numbers(second),
    decreases second.len(),
{
    if second.len() == 0 {
        assert(first + second =~= first);
        assert(numbers(first) + numbers(second) =~= numbers(first));
    } else {
        let whole = first + second;
        assert(whole.drop_last() =~= first + second.drop_last());
        lemma_numbers_concat(first, second.drop_last());
        assert(numbers(whole) =~= numbers(first) + numbers(second));
    }
}

/// The numeral of a number below 256 as a piece of an address.
pub proof fn lemma_number_piece(n: nat, rest: Seq<u8>)
    requires
        n < 256,
    ensures
        numbers(split(encode_utf8(numeral(n)), COMMA)) == seq![n as u8],
        split(encode_utf8(numeral(n)), COMMA) == seq![encode_utf8(numeral(n))],
        split(encode_utf8(numeral(n)).push(COMMA) + rest, COMMA) == seq![encode_utf8(numeral(n))]
            + split(rest, COMMA),
        numbers(split(encode_utf8(numeral(n)).push(COMMA) + rest, COMMA)) == seq![n as u8]
            + numbers(split(rest, COMMA)),
        valid_utf8(encode_utf8(numeral(n))),
{
    let piece = encode_utf8(numeral(n));
    lemma_numeral(n);
    lemma_byte_value(n);
    lemma_split_first(piece, COMMA, rest);
    encode_utf8_valid_utf8(numeral(n));
    assert(seq![piece].drop_last() =~= seq![]);
    reveal_with_fuel(numbers, 2);
    assert(numbers(seq![piece]) =~= seq![n as u8]);
    lemma_numbers_concat(seq![piece], split(rest, COMMA));
}

/// A numeral, a comma and more in UTF-8.
pub proof fn lemma_encode_piece(n: nat, rest: Seq<char>)
    ensures
        encode_utf8(numeral(n) + ","@ + rest) == encode_utf8(numeral(n)).push(COMMA)
            + encode_utf8(rest),
{
    reveal_strlit(",");
    let comma = ","@;
    assert(comma =~= seq![',']);
    assert(is_ascii_chars(comma));
    is_ascii_chars_encode_utf8(comma);
    assert(encode_utf8(comma) =~= seq![COMMA]);
    lemma_encode_concat(numeral(n), comma);
    lemma_encode_concat(numeral(n) + comma, rest);
    assert(encode_utf8(numeral(n)) + encode_utf8(comma) =~= encode_utf8(numeral(n)).push(COMMA));
}

/// A line that is complete stays the first line, whatever comes behind it.
pub proof fn law_complete_line_is_stable(bytes: Seq<u8>, more: Seq<u8>)
    requires
        first_line(bytes) is Some,
    ensures
        first_line(bytes + more) == first_line(bytes),
        (bytes + more).take(first_line(bytes)->0) == bytes.take(first_line(bytes)->0),
{
    let at = first_line(bytes)->0;
    lemma_first_line_from(bytes, 0);
    let whole = bytes + more;
    assert(ends_line(whole, at));
    assert forall|k: int| 0 <= k < at implies !ends_line(whole, k) by {
        assert(!ends_line(bytes, k));
    }
    lemma_first_line_unique(whole, 0, at);
    assert(whole.take(at) =~= bytes.take(at));
}

/// Lines are read one by one: what was sent before the end of the first line is that line, and
/// what was sent behind it is left.
pub proof fn law_lines_in_order(line: Seq<u8>, rest: Seq<u8>)
    requires
        first_line(line) is None,
    ensures
        ({
            let bytes = line + seq![CR, LF] + rest;
            &&& first_line(bytes) == Some(line.len() as int)
            &&& bytes.take(line.len() as int) == line
            &&& bytes.skip(line.len() as int + 2) == rest
        }),
{
    let bytes = line + seq![CR, LF] + rest;
    let at = line.len() as int;
    lemma_first_line_from(line, 0);
    assert(bytes[at] == CR && bytes[at + 1] == LF);
    assert forall|k: int| 0 <= k < at implies !ends_line(bytes, k) by {
        assert(!ends_line(line, k));
        assert(bytes[k] == line[k]);
        if k + 1 < at {
            assert(bytes[k + 1] == line[k + 1]);
        }
    }
    lemma_first_line_unique(bytes, 0, at);
    assert(bytes.take(at) =~= line);
    assert(bytes.skip(at + 2) =~= rest);
}

/// The first line ends at the first carriage return that a line feed follows, and there is no
/// complete line where there is none.
pub proof fn law_first_line(bytes: Seq<u8>, at: int)
    ensures
        first_line(bytes) == Some(at) <==> {
            &&& 0 <= at && at + 1 < bytes.len()
            &&& bytes[at] == 13 && bytes[at + 1] == 10
            &&& forall|k: int|
                0 <= k < at ==> !(#[trigger] bytes[k] == 13 && bytes[k + 1] == 10)
        },
        first_line(bytes) is None <==> forall|k: int|
            0 <= k && k + 1 < bytes.len() ==> !(#[trigger] bytes[k] == 13 && bytes[k + 1] == 10),
{
    lemma_first_line_from(bytes, 0);
    if first_line(bytes) is Some {
        let end = first_line(bytes)->0;
        assert(ends_line(bytes, end));
        assert(bytes[end] == 13 && bytes[end + 1] == 10);
        assert forall|k: int| 0 <= k < end implies !(#[trigger] bytes[k] == 13 && bytes[k + 1]
            == 10) by {
            assert(!ends_line(bytes, k));
        }
    } else {
        assert forall|k: int| 0 <= k && k + 1 < bytes.len() implies !(#[trigger] bytes[k] == 13
            && bytes[k + 1] == 10) by {
            assert(!ends_line(bytes, k));
        }
    }
}

/// A request is read from just the bytes before the first line end, and what stands behind that
/// end is left as it is. Without a line end nothing is read, and nothing is taken.
pub proof fn law_request_is_read(line: Seq<u8>, rest: Seq<u8>)
    requires
        first_line(line) is None,
    ensures
        request_read(line + seq![13u8, 10u8] + rest) == Some(line_command(line)),
        request_left(line + seq![13u8, 10u8] + rest) == rest,
        request_read(line) is None,
        request_left(line) == line,
{
    law_lines_in_order(line, rest);
}

/// What is sent line by line: each line and its end.
pub open spec fn lines_written(requests: Seq<Seq<u8>>) -> Seq<u8>
    decreases requests.len(),
{
    if requests.len() == 0 {
        seq![]
    } else {
        lines_written(requests.drop_last()) + requests.last() + seq![13u8, 10u8]
    }
}

/// What holds no line end is one line with an end behind it.
proof fn lemma_complete_line(text: Seq<u8>)
    requires
        first_line(text) is None,
    ensures
        is_line(text + seq![CR, LF]),
        (text + seq![CR, LF]).take(text.len() as int) == text,
{
    let line = text + seq![CR, LF];
    law_lines_in_order(text, seq![]);
    assert(text + seq![CR, LF] + seq![] =~= line);
    lemma_first_line_from(line, 0);
    assert(line.take(text.len() as int) =~= text);
}

/// Lines that are sent one after the other are read one after the other, each as it was sent,
/// and nothing is left over.
pub proof fn law_requests_in_order(requests: Seq<Seq<u8>>)
    requires
        forall|k: int| 0 <= k < requests.len() ==> first_line(#[trigger] requests[k]) is None,
    ensures
        lines(lines_written(requests)) == requests,
        left_over(lines_written(requests)).len() == 0,
    decreases requests.len(),
{
    let all = lines_written(requests);
    if requests.len() == 0 {
        assert(lines(all) =~= requests);
    } else {
        let earlier = requests.drop_last();
        let last = requests.last();
        assert forall|k: int| 0 <= k < earlier.len() implies first_line(
            #[trigger] earlier[k],
        ) is None by {
            assert(earlier[k] == requests[k]);
        }
        assert(first_line(requests[requests.len() - 1]) is None);
        law_requests_in_order(earlier);
        let line = last + seq![CR, LF];
        lemma_complete_line(last);
        lemma_lines_append(lines_written(earlier), line);
        assert(all =~= lines_written(earlier) + line);
        assert(earlier.push(last) =~= requests);
    }
}

/// Text is written behind what the buffer holds, and as it is.
pub proof fn law_data_written(held: Seq<u8>, data: Seq<char>)
    ensures
        data_written(held, data).take(held.len() as int) == held,
        data_written(held, data).skip(held.len() as int) == encode_utf8(data),
{
    assert(data_written(held, data).take(held.len() as int) =~= held);
    assert(data_written(held, data).skip(held.len() as int) =~= encode_utf8(data));
}

/// Text that is written to an empty buffer of a data connection is read back as it was, and
/// text that is written behind other text is read back behind it.
pub proof fn law_data_reads_back(held: Seq<u8>, data: Seq<char>)
    requires
        valid_utf8(held),
    ensures
        valid_utf8(data_written(held, data)),
        decode_utf8(data_written(held, data)) == decode_utf8(held) + data,
        data_read(data_written(seq![], data)) == (if data.len() == 0 {
            None
        } else {
            Some(data)
        }),
{
    decode_utf8_encode_utf8(held);
    let text = decode_utf8(held);
    lemma_encode_concat(text, data);
    assert(data_written(held, data) == encode_utf8(text + data));
    encode_utf8_valid_utf8(text + data);
    encode_utf8_decode_utf8(text + data);
    encode_utf8_decode_utf8(data);
    assert(data_written(seq![], data) =~= encode_utf8(data));
    if data.len() == 0 {
        assert(encode_utf8(data) =~= seq![]);
    } else {
        assert(data =~= decode_utf8(encode_utf8(data)));
    }
}

/// Text that is written in two pieces leaves the same buffer as text that is written at once,
/// and empty text leaves it as it was.
pub proof fn law_data_in_pieces(held: Seq<u8>, first: Seq<char>, second: Seq<char>)
    ensures
        data_written(data_written(held, first), second) == data_written(held, first + second),
        data_written(held, seq![]) == held,
{
    lemma_encode_concat(first, second);
    assert(data_written(data_written(held, first), second) =~= data_written(
        held,
        first + second,
    ));
    assert(encode_utf8(Seq::<char>::empty()) =~= seq![]);
    assert(data_written(held, seq![]) =~= held);
}

/// No two replies share a code, and each code has three digits.
pub proof fn law_codes_distinct(first: ResultCode, second: ResultCode)
    ensures
        100 <= code_number(first) <= 999,
        code_number(first) == code_number(second) ==> first == second,
{
}

/// Where a carriage return or a line feed stands in the UTF-8 of a text, it stands in the text.
proof fn lemma_line_end_in_text(text: Seq<char>)
    ensures
        first_line(encode_utf8(text)) is Some ==> has_line_end(text),
        text.len() > 0 && encode_utf8(text).len() > 0 && encode_utf8(text)[0] == LF ==> text[0]
            == '\n',
    decreases text.len(),
{
    if text.len() > 0 {
        let head = encode_scalar(text[0] as u32);
        let tail = text.drop_first();
        let rest = encode_utf8(tail);
        let bytes = encode_utf8(text);
        assert(bytes == head + rest);
        lemma_line_end_in_text(tail);
        lemma_scalar_bytes(text[0]);
        lemma_first_line_from(bytes, 0);
        lemma_first_line_from(rest, 0);
        assert(bytes[0] == head[0]);
        assert(LF as char == '\n' && CR as char == '\r');
        if first_line(bytes) is Some {
            let at = first_line(bytes)->0;
            if at < head.len() {
                assert(bytes[at] == head[at]);
                assert(head.len() == 1 && text[0] == '\r');
                assert(bytes[1] == rest[0]);
                assert(tail.len() > 0);
                assert(tail[0] == text[1]);
                assert(text[0] == '\r' && text[0int + 1] == '\n');
            } else {
                let k = at - head.len();
                assert(ends_line(rest, k));
                assert(first_line(rest) is Some);
                let j = choose|j: int|
                    0 <= j && j + 1 < tail.len() && #[trigger] tail[j] == '\r' && tail[j + 1]
                        == '\n';
                assert(text[j + 1] == tail[j] && text[j + 2] == tail[j + 1]);
            }
        }
    } else {
        assert(encode_utf8(text) =~= seq![]);
        lemma_first_line_from(encode_utf8(text), 0);
    }
}

/// In the UTF-8 of a character a byte of ASCII stands only for itself.
proof fn lemma_scalar_bytes(c: char)
    ensures
        encode_scalar(c as u32).len() > 0,
        forall|k: int|
            0 <= k < encode_scalar(c as u32).len() && (#[trigger] encode_scalar(c as u32)[k]) < 128
                ==> encode_scalar(c as u32).len() == 1 && c == encode_scalar(c as u32)[k] as char,
{
    let u = c as u32;
    assert(u < 0x80 ==> leading_byte_width_1(u) == u) by (bit_vector);
    assert(leading_byte_width_2(u) >= 128) by (bit_vector);
    assert(leading_byte_width_3(u) >= 128) by (bit_vector);
    assert(leading_byte_width_4(u) >= 128) by (bit_vector);
    assert(last_continuation_byte(u) >= 128) by (bit_vector);
    assert(second_last_continuation_byte(u) >= 128) by (bit_vector);
    assert(third_last_continuation_byte(u) >= 128) by (bit_vector);
}

/// A reply is written behind what the buffer holds: the three digits of its code, a space and
/// the whole message where there is one, and a carriage return and a line feed. The message is
/// read back from what stands behind the space and before the line end.
pub proof fn law_reply_carries_its_message(held: Seq<u8>, answer: AnswerModel)
    ensures
        ({
            let bytes = reply_written(held, answer);
            let line = bytes.skip(held.len() as int);
            let size = line.len() as int;
            &&& bytes.take(held.len() as int) == held
            &&& size >= 5
            &&& line[size - 2] == 13 && line[size - 1] == 10
            &&& forall|k: int| 0 <= k < 3 ==> 48 <= #[trigger] line[k] <= 57
            &&& (line[0] - 48) * 100 + (line[1] - 48) * 10 + (line[2] - 48) == code_number(
                answer.code,
            )
            &&& answer.message.len() == 0 ==> size == 5
            &&& answer.message.len() > 0 ==> {
                &&& size >= 6
                &&& line[3] == 32
                &&& line.subrange(4, size - 2) == encode_utf8(answer.message)
                &&& valid_utf8(line.subrange(4, size - 2))
                &&& decode_utf8(line.subrange(4, size - 2)) == answer.message
            }
        }),
{
    let number = code_number(answer.code) as nat;
    let code = numeral(number);
    let line = encode_utf8(reply_line(answer));
    let end = "\r\n"@;
    let space = " "@;
    assert(reply_written(held, answer).skip(held.len() as int) =~= line);
    assert(reply_written(held, answer).take(held.len() as int) =~= held);
    lemma_three_digits(number);
    assert(encode_utf8(end) =~= seq![13u8, 10u8]) by {
        reveal_strlit("\r\n");
        is_ascii_chars_encode_utf8(end);
    }
    assert(encode_utf8(space) =~= seq![32u8]) by {
        reveal_strlit(" ");
        is_ascii_chars_encode_utf8(space);
    }
    if answer.message.len() == 0 {
        lemma_encode_concat(code, end);
    } else {
        lemma_encode_concat(code, space);
        lemma_encode_concat(code + space, answer.message);
        lemma_encode_concat(code + space + answer.message, end);
        encode_utf8_valid_utf8(answer.message);
        encode_utf8_decode_utf8(answer.message);
        assert(line.subrange(4, line.len() - 2) =~= encode_utf8(answer.message));
    }
}

/// The numeral of a number of three digits.
proof fn lemma_three_digits(n: nat)
    requires
        100 <= n <= 999,
    ensures
        ({
            let bytes = encode_utf8(numeral(n));
            &&& bytes.len() == 3
            &&& forall|k: int| 0 <= k < 3 ==> 48 <= #[trigger] bytes[k] <= 57
            &&& (bytes[0] - 48) * 100 + (bytes[1] - 48) * 10 + (bytes[2] - 48) == n
        }),
{
    reveal_with_fuel(numeral, 4);
    lemma_numeral(n);
    is_ascii_chars_encode_utf8(numeral(n));
    assert(numeral(n) =~= seq![digit(n / 10 / 10), digit(n / 10 % 10), digit(n % 10)]);
}

/// Two replies that are written as the same bytes have the same code and the same message.
pub proof fn law_replies_differ(first: AnswerModel, second: AnswerModel)
    ensures
        reply_line(first) == reply_line(second) ==> first.code == second.code && first.message
            == second.message,
{
    law_reply_carries_its_message(seq![], first);
    law_reply_carries_its_message(seq![], second);
    law_codes_distinct(first.code, second.code);
}

/// No line ends within a text and what stands around it, where there is no carriage return
/// before it and no line feed behind it.
proof fn lemma_around_text(before: Seq<char>, text: Seq<char>, behind: Seq<char>)
    requires
        forall|k: int| 0 <= k < before.len() ==> before[k] != '\r',
        forall|k: int| 0 <= k < behind.len() ==> behind[k] != '\n',
        !has_line_end(text),
    ensures
        !has_line_end(before + text + behind),
{
    let whole = before + text + behind;
    assert forall|k: int| 0 <= k && k + 1 < whole.len() implies !(#[trigger] whole[k] == '\r'
        && whole[k + 1] == '\n') by {
        let at = k - before.len();
        if at >= 0 && at + 1 < text.len() {
            assert(whole[k] == text[at] && whole[k + 1] == text[at + 1]);
        }
    }
}

/// A reply whose message holds no line end is one line.
pub proof fn law_reply_is_one_line(answer: AnswerModel)
    requires
        !has_line_end(answer.message),
    ensures
        first_line(encode_utf8(reply_line(answer))) == Some(
            encode_utf8(reply_line(answer)).len() - 2,
        ),
        is_line(encode_utf8(reply_line(answer))),
{
    let code = numeral(code_number(answer.code) as nat);
    let text = if answer.message.len() == 0 {
        code
    } else {
        code + " "@ + answer.message
    };
    reveal_strlit("\r\n");
    reveal_strlit(" ");
    assert(reply_line(answer) =~= text + "\r\n"@);
    let end = "\r\n"@;
    assert(is_ascii_chars(end));
    is_ascii_chars_encode_utf8(end);
    assert(encode_utf8(end) =~= seq![CR, LF]);
    lemma_encode_concat(text, end);
    lemma_numeral(code_number(answer.code) as nat);
    lemma_numeral_chars(code_number(answer.code) as nat);
    if answer.message.len() > 0 {
        lemma_around_text(code + " "@, answer.message, seq![]);
        assert(text =~= code + " "@ + answer.message + seq![]);
    }
    lemma_line_end_in_text(text);
    law_lines_in_order(encode_utf8(text), seq![]);
    assert(encode_utf8(reply_line(answer)) =~= encode_utf8(text) + seq![CR, LF] + seq![]);
    lemma_first_line_from(encode_utf8(reply_line(answer)), 0);
}

/// A line behind complete lines is one line more.
proof fn lemma_lines_append(held: Seq<u8>, line: Seq<u8>)
    requires
        left_over(held).len() == 0,
        is_line(line),
    ensures
        lines(held + line) == lines(held).push(line.take(line.len() - 2)),
        left_over(held + line).len() == 0,
    decreases held.len(),
{
    let whole = held + line;
    lemma_first_line_from(held, 0);
    if held.len() == 0 {
        let at = line.len() - 2;
        assert(whole =~= line);
        assert(ends_line(line, at));
        lemma_first_line_unique(line, 0, at);
        let rest = line.skip(at + 2);
        assert(rest.len() == 0);
        assert(lines(rest) =~= seq![]);
        assert(left_over(rest).len() == 0);
        assert(lines(held) =~= seq![]);
        assert(lines(whole) =~= lines(held).push(line.take(at)));
    } else {
        let at = first_line(held)->0;
        law_complete_line_is_stable(held, line);
        let rest = held.skip(at + 2);
        assert(whole.skip(at + 2) =~= rest + line);
        lemma_lines_append(rest, line);
        assert(lines(whole) =~= lines(held).push(line.take(line.len() - 2)));
    }
}

/// What an empty buffer of the control connection holds after some replies.
pub open spec fn replies_written(answers: Seq<AnswerModel>) -> Seq<u8>
    decreases answers.len(),
{
    if answers.len() == 0 {
        seq![]
    } else {
        reply_written(replies_written(answers.drop_last()), answers.last())
    }
}

/// Replies whose messages hold no line end are as many lines, in order, with nothing left over.
pub proof fn law_replies_are_lines(answers: Seq<AnswerModel>)
    requires
        forall|k: int| 0 <= k < answers.len() ==> !has_line_end((#[trigger] answers[k]).message),
    ensures
        lines(replies_written(answers)).len() == answers.len(),
        forall|k: int|
            0 <= k < answers.len() ==> #[trigger] lines(replies_written(answers))[k] + seq![CR, LF]
                == encode_utf8(reply_line(answers[k])),
        left_over(replies_written(answers)).len() == 0,
    decreases answers.len(),
{
    let all = replies_written(answers);
    if answers.len() == 0 {
        assert(lines(all) =~= seq![]);
    } else {
        let earlier = answers.drop_last();
        assert forall|k: int| 0 <= k < earlier.len() implies !has_line_end(
            (#[trigger] earlier[k]).message,
        ) by {
            assert(earlier[k] == answers[k]);
        }
        law_replies_are_lines(earlier);
        let count = answers.len() - 1;
        assert(answers[count] == answers.last());
        let line = encode_utf8(reply_line(answers.last()));
        law_reply_is_one_line(answers.last());
        lemma_lines_append(replies_written(earlier), line);
        assert forall|k: int| 0 <= k < answers.len() implies #[trigger] lines(all)[k] + seq![
            CR,
            LF,
        ] == encode_utf8(reply_line(answers[k])) by {
            if k < count {
                assert(lines(all)[k] == lines(replies_written(earlier))[k]);
                assert(earlier[k] == answers[k]);
            } else {
                assert(ends_line(line, line.len() - 2));
                assert(lines(all)[k] == line.take(line.len() - 2));
                assert(line.take(line.len() - 2) + seq![CR, LF] =~= line);
            }
        }
    }
}

/// Where a line ends within a text, one ends within its UTF-8.
proof fn lemma_line_end_in_bytes(bytes: Seq<u8>)
    requires
        valid_utf8(bytes),
        first_line(bytes) is None,
    ensures
        !has_line_end(decode_utf8(bytes)),
{
    let text = decode_utf8(bytes);
    if has_line_end(text) {
        let k = choose|k: int|
            0 <= k && k + 1 < text.len() && #[trigger] text[k] == '\r' && text[k + 1] == '\n';
        let front = text.take(k);
        let end = seq!['\r', '\n'];
        let back = text.skip(k + 2);
        assert(text =~= front + end + back);
        assert(is_ascii_chars(end));
        is_ascii_chars_encode_utf8(end);
        assert(encode_utf8(end) =~= seq![CR, LF]);
        lemma_encode_concat(front, end);
        lemma_encode_concat(front + end, back);
        decode_utf8_encode_utf8(bytes);
        lemma_first_line_from(bytes, 0);
        let at = encode_utf8(front).len() as int;
        assert(bytes == encode_utf8(front) + seq![CR, LF] + encode_utf8(back));
        assert(bytes[at] == CR && bytes[at + 1] == LF);
        assert(ends_line(bytes, at));
    }
}

/// No line ends within a part of a line.
proof fn lemma_part_of_line(line: Seq<u8>, from: int, to: int)
    requires
        first_line(line) is None,
        0 <= from <= to <= line.len(),
    ensures
        first_line(line.subrange(from, to)) is None,
        first_line(uppercase(line.subrange(from, to))) is None,
{
    let part = line.subrange(from, to);
    let loud = uppercase(part);
    lemma_first_line_from(line, 0);
    lemma_first_line_from(part, 0);
    lemma_first_line_from(loud, 0);
    if first_line(part) is Some {
        assert(ends_line(line, from + first_line(part)->0));
    }
    if first_line(loud) is Some {
        let at = first_line(loud)->0;
        assert(loud[at] == uppercase_byte(part[at]) && loud[at + 1] == uppercase_byte(
            part[at + 1],
        ));
        assert(ends_line(line, from + at));
    }
}

/// The names and the verbs that a client can have repeated to it hold no line end.
pub proof fn law_no_line_end_in_request_text(line: Seq<u8>)
    requires
        first_line(line) is None,
        line_fault(line) is None,
    ensures
        line_command(line) matches CommandModel::Cwd(directory) ==> !has_line_end(directory),
        line_command(line) matches CommandModel::User(name) ==> !has_line_end(name),
        line_command(line) matches CommandModel::Unknown(verb) ==> !has_line_end(verb),
{
    lemma_find_from(line, SPACE, 0);
    let end = find_from(line, SPACE, 0);
    lemma_part_of_line(line, 0, end);
    assert(split(line, SPACE)[0] == line.subrange(0, end));
    if valid_utf8(line_verb(line)) {
        lemma_line_end_in_bytes(line_verb(line));
    }
    if end < line.len() {
        lemma_find_from(line, SPACE, end + 1);
        let next = find_from(line, SPACE, end + 1);
        assert(split_from(line, SPACE, end + 1)[0] == line.subrange(end + 1, next));
        assert(split(line, SPACE)[1] == split_from(line, SPACE, end + 1)[0]);
        lemma_part_of_line(line, end + 1, next);
        if valid_utf8(line_parameter(line)->0) {
            lemma_line_end_in_bytes(line_parameter(line)->0);
        }
    }
}

/// What a request line is answered with at once is one line, whatever the client sent; the
/// working directory alone may have a name that ends a line.
pub proof fn law_reply_to_a_line_is_one_line(client: ClientModel, line: Seq<u8>)
    requires
        first_line(line) is None,
        line_fault(line) is None,
        !(line_command(line) is Pwd),
        start(client, line_command(line)).1 is Send,
    ensures
        ({
            let reply = encode_utf8(reply_line(start(client, line_command(line)).1->Send_0));
            first_line(reply) == Some(reply.len() - 2)
        }),
{
    let command = line_command(line);
    let answer = start(client, command).1->Send_0;
    let none = Seq::<char>::empty();
    law_no_line_end_in_request_text(line);
    reveal_strlit("Not implemented");
    reveal_strlit("No opened data connection");
    reveal_strlit("Data port is now ");
    reveal_strlit("Already listening...");
    reveal_strlit("Closing connection...");
    reveal_strlit("Starting to send file...");
    reveal_strlit("I won't tell!");
    reveal_strlit("Transfer type changed successfully");
    reveal_strlit("Done");
    reveal_strlit("\"");
    reveal_strlit("\": Not implemented");
    reveal_strlit("Invalid username");
    reveal_strlit("Welcome ");
    reveal_strlit("!");
    match command {
        CommandModel::Port(port) => {
            lemma_numeral_chars(port as nat);
            assert(!has_line_end(numeral(port as nat)));
            lemma_around_text("Data port is now "@, numeral(port as nat), none);
            assert(answer.message =~= "Data port is now "@ + numeral(port as nat) + none);
        },
        CommandModel::Unknown(verb) => {
            lemma_around_text("\""@, verb, "\": Not implemented"@);
        },
        CommandModel::User(name) => {
            if name.len() > 0 {
                lemma_around_text("Welcome "@, name, "!"@);
            }
        },
        _ => {},
    }
    law_reply_is_one_line(answer);
}

/// The characters of a numeral are digits.
proof fn lemma_numeral_chars(n: nat)
    ensures
        forall|k: int| 0 <= k < numeral(n).len() ==> '0' <= #[trigger] numeral(n)[k] <= '9',
    decreases n,
{
    if n >= 10 {
        lemma_numeral_chars(n / 10);
        let front = numeral(n / 10);
        assert forall|k: int| 0 <= k < numeral(n).len() implies '0' <= #[trigger] numeral(n)[k]
            <= '9' by {
            if k < front.len() {
                assert(numeral(n)[k] == front[k]);
            } else {
                assert(numeral(n)[k] == digit(n % 10));
            }
        }
    }
}

}
