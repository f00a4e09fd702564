//! What each request line stands for, letter by letter.

use crate::cmd::{
    address_fault, address_port, line_command, line_fault, line_parameter, line_verb, numbers,
    spells, uppercase, CommandModel, LineFault, TransferType,
};
use crate::line_laws::{law_rest_of_line_ignored, lemma_encode_piece, lemma_number_piece};
use crate::listing::lemma_utf8_pieces;
use crate::session::passive_address;
use crate::text::{
    all_digits, byte_value, digits_value, lemma_numeral, lemma_split_first, numeral, split, COMMA,
    SPACE,
};
use vstd::prelude::*;
use vstd::utf8::*;

verus! {

/// A request line of a verb and a parameter, where there is one.
pub open spec fn line_of(verb: Seq<u8>, parameter: Option<Seq<u8>>) -> Seq<u8> {
    match parameter {
        Some(bytes) => verb + seq![32u8] + bytes,
        None => verb,
    }
}

/// Whether there is no space in the bytes.
pub open spec fn has_no_space(bytes: Seq<u8>) -> bool {
    forall|k: int| 0 <= k < bytes.len() ==> bytes[k] != 32
}

/// Whether the bytes are the given capital letters, each of them upper case or lower case.
pub open spec fn spelled(verb: Seq<u8>, capitals: Seq<u8>) -> bool {
    &&& verb.len() == capitals.len()
    &&& forall|k: int|
        0 <= k < verb.len() ==> (#[trigger] verb[k] == capitals[k] || verb[k] == capitals[k] + 32)
}

/// ASCII letters are made upper case, and no other byte is changed.
pub proof fn law_uppercase(bytes: Seq<u8>)
    ensures
        uppercase(bytes).len() == bytes.len(),
        forall|k: int|
            0 <= k < bytes.len() ==> #[trigger] uppercase(bytes)[k] == (if 97 <= bytes[k] <= 122 {
                bytes[k] - 32
            } else {
                bytes[k] as int
            }),
{
}

/// The verbs as bytes.
proof fn lemma_verb_table(v: Seq<u8>)
    ensures
        spells(v, "AUTH") <==> v == seq![65u8, 85u8, 84u8, 72u8],
        spells(v, "CWD") <==> v == seq![67u8, 87u8, 68u8],
        spells(v, "LIST") <==> v == seq![76u8, 73u8, 83u8, 84u8],
        spells(v, "PASV") <==> v == seq![80u8, 65u8, 83u8, 86u8],
        spells(v, "PORT") <==> v == seq![80u8, 79u8, 82u8, 84u8],
        spells(v, "PWD") <==> v == seq![80u8, 87u8, 68u8],
        spells(v, "QUIT") <==> v == seq![81u8, 85u8, 73u8, 84u8],
        spells(v, "RETR") <==> v == seq![82u8, 69u8, 84u8, 82u8],
        spells(v, "STOR") <==> v == seq![83u8, 84u8, 79u8, 82u8],
        spells(v, "SYST") <==> v == seq![83u8, 89u8, 83u8, 84u8],
        spells(v, "TYPE") <==> v == seq![84u8, 89u8, 80u8, 69u8],
        spells(v, "CDUP") <==> v == seq![67u8, 68u8, 85u8, 80u8],
        spells(v, "USER") <==> v == seq![85u8, 83u8, 69u8, 82u8],
{
    assert(encode_utf8("AUTH"@) =~= seq![65u8, 85u8, 84u8, 72u8]) by {
        reveal_strlit("AUTH");
        is_ascii_chars_encode_utf8("AUTH"@);
    }
    assert(encode_utf8("CWD"@) =~= seq![67u8, 87u8, 68u8]) by {
        reveal_strlit("CWD");
        is_ascii_chars_encode_utf8("CWD"@);
    }
    assert(encode_utf8("LIST"@) =~= seq![76u8, 73u8, 83u8, 84u8]) by {
        reveal_strlit("LIST");
        is_ascii_chars_encode_utf8("LIST"@);
    }
    assert(encode_utf8("PASV"@) =~= seq![80u8, 65u8, 83u8, 86u8]) by {
        reveal_strlit("PASV");
        is_ascii_chars_encode_utf8("PASV"@);
    }
    assert(encode_utf8("PORT"@) =~= seq![80u8, 79u8, 82u8, 84u8]) by {
        reveal_strlit("PORT");
        is_ascii_chars_encode_utf8("PORT"@);
    }
    assert(encode_utf8("PWD"@) =~= seq![80u8, 87u8, 68u8]) by {
        reveal_strlit("PWD");
        is_ascii_chars_encode_utf8("PWD"@);
    }
    assert(encode_utf8("QUIT"@) =~= seq![81u8, 85u8, 73u8, 84u8]) by {
        reveal_strlit("QUIT");
        is_ascii_chars_encode_utf8("QUIT"@);
    }
    assert(encode_utf8("RETR"@) =~= seq![82u8, 69u8, 84u8, 82u8]) by {
        reveal_strlit("RETR");
        is_ascii_chars_encode_utf8("RETR"@);
    }
    assert(encode_utf8("STOR"@) =~= seq![83u8, 84u8, 79u8, 82u8]) by {
        reveal_strlit("STOR");
        is_ascii_chars_encode_utf8("STOR"@);
    }
    assert(encode_utf8("SYST"@) =~= seq![83u8, 89u8, 83u8, 84u8]) by {
        reveal_strlit("SYST");
        is_ascii_chars_encode_utf8("SYST"@);
    }
    assert(encode_utf8("TYPE"@) =~= seq![84u8, 89u8, 80u8, 69u8]) by {
        reveal_strlit("TYPE");
        is_ascii_chars_encode_utf8("TYPE"@);
    }
    assert(encode_utf8("CDUP"@) =~= seq![67u8, 68u8, 85u8, 80u8]) by {
        reveal_strlit("CDUP");
        is_ascii_chars_encode_utf8("CDUP"@);
    }
    assert(encode_utf8("USER"@) =~= seq![85u8, 83u8, 69u8, 82u8]) by {
        reveal_strlit("USER");
        is_ascii_chars_encode_utf8("USER"@);
    }
}

/// A line is read as its verb in upper case and its parameter.
proof fn lemma_line(verb: Seq<u8>, parameter: Option<Seq<u8>>, capitals: Seq<u8>)
    requires
        spelled(verb, capitals),
        forall|k: int| 0 <= k < capitals.len() ==> 65 <= #[trigger] capitals[k] <= 90,
        parameter matches Some(bytes) ==> has_no_space(bytes),
    ensures
        line_verb(line_of(verb, parameter)) == capitals,
        line_parameter(line_of(verb, parameter)) == parameter,
{
    assert(uppercase(verb) =~= capitals);
    assert forall|k: int| 0 <= k < verb.len() implies verb[k] != SPACE by {
        assert(65 <= capitals[k] <= 90);
    }
    lemma_any_line(verb, parameter);
}

/// A line is read as its verb in upper case and its parameter.
proof fn lemma_any_line(verb: Seq<u8>, parameter: Option<Seq<u8>>)
    requires
        has_no_space(verb),
        parameter matches Some(bytes) ==> has_no_space(bytes),
    ensures
        line_verb(line_of(verb, parameter)) == uppercase(verb),
        line_parameter(line_of(verb, parameter)) == parameter,
{
    match parameter {
        Some(bytes) => {
            law_rest_of_line_ignored(verb, bytes, seq![]);
            assert(line_of(verb, parameter) =~= verb.push(SPACE) + bytes);
        },
        None => {
            lemma_split_first(verb, SPACE, seq![]);
        },
    }
}

/// `STOR` and a path stand for storing a file under just that path; without a path, or with
/// one that is not text, they stand for nothing.
pub proof fn law_stor_line(verb: Seq<u8>, parameter: Option<Seq<u8>>)
    requires
        spelled(verb, seq![83, 84, 79, 82]),
        parameter matches Some(bytes) ==> has_no_space(bytes),
    ensures
        match parameter {
            Some(bytes) => if valid_utf8(bytes) {
                &&& line_fault(line_of(verb, parameter)) is None
                &&& line_command(line_of(verb, parameter)) == CommandModel::Stor(bytes)
            } else {
                line_fault(line_of(verb, parameter)) == Some(LineFault::NotUtf8)
            },
            None => line_fault(line_of(verb, parameter)) == Some(LineFault::NoParameter),
        },
{
    let name = seq![83u8, 84u8, 79u8, 82u8];
    lemma_line(verb, parameter, name);
    lemma_verb_table(name);
    assert(name.len() == 4 && name[0] == 83 && name[1] == 84);
}

/// `RETR` and a path stand for sending the file of just that path; without a path, or with one
/// that is not text, they stand for nothing.
pub proof fn law_retr_line(verb: Seq<u8>, parameter: Option<Seq<u8>>)
    requires
        spelled(verb, seq![82, 69, 84, 82]),
        parameter matches Some(bytes) ==> has_no_space(bytes),
    ensures
        match parameter {
            Some(bytes) => if valid_utf8(bytes) {
                &&& line_fault(line_of(verb, parameter)) is None
                &&& line_command(line_of(verb, parameter)) == CommandModel::Retr(bytes)
            } else {
                line_fault(line_of(verb, parameter)) == Some(LineFault::NotUtf8)
            },
            None => line_fault(line_of(verb, parameter)) == Some(LineFault::NoParameter),
        },
{
    let name = seq![82u8, 69u8, 84u8, 82u8];
    lemma_line(verb, parameter, name);
    lemma_verb_table(name);
    assert(name.len() == 4 && name[0] == 82);
}

/// `LIST` stands for a listing of just the path that it names, or of no path where it names
/// none; with a path that is not text it stands for nothing.
pub proof fn law_list_line(verb: Seq<u8>, parameter: Option<Seq<u8>>)
    requires
        spelled(verb, seq![76, 73, 83, 84]),
        parameter matches Some(bytes) ==> has_no_space(bytes),
    ensures
        if parameter is Some && !valid_utf8(parameter->0) {
            line_fault(line_of(verb, parameter)) == Some(LineFault::NotUtf8)
        } else {
            &&& line_fault(line_of(verb, parameter)) is None
            &&& line_command(line_of(verb, parameter)) == CommandModel::List(parameter)
        },
{
    let name = seq![76u8, 73u8, 83u8, 84u8];
    lemma_line(verb, parameter, name);
    lemma_verb_table(name);
    assert(name.len() == 4 && name[0] == 76);
}

/// `CWD` stands for a change to just the directory that it names, or to the empty path where
/// it names none; with a name that is not text it stands for nothing.
pub proof fn law_cwd_line(verb: Seq<u8>, directory: Seq<char>, bytes: Seq<u8>)
    requires
        spelled(verb, seq![67, 87, 68]),
        has_no_space(bytes),
    ensures
        line_fault(line_of(verb, None)) is None,
        line_command(line_of(verb, None)) == CommandModel::Cwd(seq![]),
        bytes == encode_utf8(directory) ==> line_fault(line_of(verb, Some(bytes))) is None,
        bytes == encode_utf8(directory) ==> line_command(line_of(verb, Some(bytes)))
            == CommandModel::Cwd(directory),
        !valid_utf8(bytes) ==> line_fault(line_of(verb, Some(bytes))) == Some(LineFault::NotUtf8),
{
    let name = seq![67u8, 87u8, 68u8];
    lemma_line(verb, None, name);
    lemma_line(verb, Some(bytes), name);
    lemma_verb_table(name);
    encode_utf8_valid_utf8(directory);
    encode_utf8_decode_utf8(directory);
    assert(name.len() == 3 && name[0] == 67);
}

/// `USER` stands for a login under just the name that it gives, or under the empty one where it
/// gives none; with a name that is not text it stands for nothing.
pub proof fn law_user_line(verb: Seq<u8>, user: Seq<char>, bytes: Seq<u8>)
    requires
        spelled(verb, seq![85, 83, 69, 82]),
        has_no_space(bytes),
    ensures
        line_fault(line_of(verb, None)) is None,
        line_command(line_of(verb, None)) == CommandModel::User(seq![]),
        bytes == encode_utf8(user) ==> line_fault(line_of(verb, Some(bytes))) is None,
        bytes == encode_utf8(user) ==> line_command(line_of(verb, Some(bytes)))
            == CommandModel::User(user),
        !valid_utf8(bytes) ==> line_fault(line_of(verb, Some(bytes))) == Some(LineFault::NotUtf8),
{
    let name = seq![85u8, 83u8, 69u8, 82u8];
    lemma_line(verb, None, name);
    lemma_line(verb, Some(bytes), name);
    lemma_verb_table(name);
    encode_utf8_valid_utf8(user);
    encode_utf8_decode_utf8(user);
    assert(name.len() == 4 && name[0] == 85);
}

/// `TYPE` goes by the first letter of its parameter: `A` and `I`, and no other.
pub proof fn law_type_line(verb: Seq<u8>, parameter: Option<Seq<u8>>)
    requires
        spelled(verb, seq![84, 89, 80, 69]),
        parameter matches Some(bytes) ==> has_no_space(bytes),
    ensures
        match parameter {
            None => line_fault(line_of(verb, parameter)) == Some(LineFault::NoParameter),
            Some(bytes) => if bytes.len() == 0 {
                line_fault(line_of(verb, parameter)) == Some(LineFault::EmptyParameter)
            } else if bytes[0] == 65 {
                &&& line_fault(line_of(verb, parameter)) is None
                &&& line_command(line_of(verb, parameter)) == CommandModel::Type(
                    TransferType::Ascii,
                )
            } else if bytes[0] == 73 {
                &&& line_fault(line_of(verb, parameter)) is None
                &&& line_command(line_of(verb, parameter)) == CommandModel::Type(
                    TransferType::Image,
                )
            } else {
                line_fault(line_of(verb, parameter)) == Some(LineFault::UnknownTransferType)
            },
        },
{
    let name = seq![84u8, 89u8, 80u8, 69u8];
    lemma_line(verb, parameter, name);
    lemma_verb_table(name);
    assert(name.len() == 4 && name[0] == 84);
}

/// `AUTH` stands for itself, with any parameter and without one.
pub proof fn law_auth_line(verb: Seq<u8>, parameter: Option<Seq<u8>>)
    requires
        spelled(verb, seq![65, 85, 84, 72]),
        parameter matches Some(bytes) ==> has_no_space(bytes),
    ensures
        line_fault(line_of(verb, parameter)) is None,
        line_command(line_of(verb, parameter)) is Auth,
{
    let name = seq![65u8, 85u8, 84u8, 72u8];
    lemma_line(verb, parameter, name);
    lemma_verb_table(name);
    assert(name.len() == 4 && name[0] == 65);
}

/// `PASV` stands for itself, with any parameter and without one.
pub proof fn law_pasv_line(verb: Seq<u8>, parameter: Option<Seq<u8>>)
    requires
        spelled(verb, seq![80, 65, 83, 86]),
        parameter matches Some(bytes) ==> has_no_space(bytes),
    ensures
        line_fault(line_of(verb, parameter)) is None,
        line_command(line_of(verb, parameter)) is Pasv,
{
    let name = seq![80u8, 65u8, 83u8, 86u8];
    lemma_line(verb, parameter, name);
    lemma_verb_table(name);
    assert(name.len() == 4 && name[0] == 80 && name[1] == 65);
}

/// `PWD` stands for itself, with any parameter and without one.
pub proof fn law_pwd_line(verb: Seq<u8>, parameter: Option<Seq<u8>>)
    requires
        spelled(verb, seq![80, 87, 68]),
        parameter matches Some(bytes) ==> has_no_space(bytes),
    ensures
        line_fault(line_of(verb, parameter)) is None,
        line_command(line_of(verb, parameter)) is Pwd,
{
    let name = seq![80u8, 87u8, 68u8];
    lemma_line(verb, parameter, name);
    lemma_verb_table(name);
    assert(name.len() == 3 && name[0] == 80);
}

/// `QUIT` stands for itself, with any parameter and without one.
pub proof fn law_quit_line(verb: Seq<u8>, parameter: Option<Seq<u8>>)
    requires
        spelled(verb, seq![81, 85, 73, 84]),
        parameter matches Some(bytes) ==> has_no_space(bytes),
    ensures
        line_fault(line_of(verb, parameter)) is None,
        line_command(line_of(verb, parameter)) is Quit,
{
    let name = seq![81u8, 85u8, 73u8, 84u8];
    lemma_line(verb, parameter, name);
    lemma_verb_table(name);
    assert(name.len() == 4 && name[0] == 81);
}

/// `SYST` stands for itself, with any parameter and without one.
pub proof fn law_syst_line(verb: Seq<u8>, parameter: Option<Seq<u8>>)
    requires
        spelled(verb, seq![83, 89, 83, 84]),
        parameter matches Some(bytes) ==> has_no_space(bytes),
    ensures
        line_fault(line_of(verb, parameter)) is None,
        line_command(line_of(verb, parameter)) is Syst,
{
    let name = seq![83u8, 89u8, 83u8, 84u8];
    lemma_line(verb, parameter, name);
    lemma_verb_table(name);
    assert(name.len() == 4 && name[0] == 83 && name[1] == 89);
}

/// `CDUP` stands for itself, with any parameter and without one.
pub proof fn law_cdup_line(verb: Seq<u8>, parameter: Option<Seq<u8>>)
    requires
        spelled(verb, seq![67, 68, 85, 80]),
        parameter matches Some(bytes) ==> has_no_space(bytes),
    ensures
        line_fault(line_of(verb, parameter)) is None,
        line_command(line_of(verb, parameter)) is CdUp,
{
    let name = seq![67u8, 68u8, 85u8, 80u8];
    lemma_line(verb, parameter, name);
    lemma_verb_table(name);
    assert(name.len() == 4 && name[0] == 67);
}

/// Any other verb is unknown, and carried in upper case where it is text.
pub proof fn law_unknown_line(verb: Seq<u8>, parameter: Option<Seq<u8>>, text: Seq<char>)
    requires
        has_no_space(verb),
        parameter matches Some(bytes) ==> has_no_space(bytes),
        !spelled(verb, seq![65, 85, 84, 72]),
        !spelled(verb, seq![67, 87, 68]),
        !spelled(verb, seq![76, 73, 83, 84]),
        !spelled(verb, seq![80, 65, 83, 86]),
        !spelled(verb, seq![80, 79, 82, 84]),
        !spelled(verb, seq![80, 87, 68]),
        !spelled(verb, seq![81, 85, 73, 84]),
        !spelled(verb, seq![82, 69, 84, 82]),
        !spelled(verb, seq![83, 84, 79, 82]),
        !spelled(verb, seq![83, 89, 83, 84]),
        !spelled(verb, seq![84, 89, 80, 69]),
        !spelled(verb, seq![67, 68, 85, 80]),
        !spelled(verb, seq![85, 83, 69, 82]),
    ensures
        line_fault(line_of(verb, parameter)) is None,
        line_command(line_of(verb, parameter)) is Unknown,
        uppercase(verb) == encode_utf8(text) ==> line_command(line_of(verb, parameter))
            == CommandModel::Unknown(text),
        !valid_utf8(uppercase(verb)) ==> line_command(line_of(verb, parameter))
            == CommandModel::Unknown(seq![]),
{
    lemma_any_line(verb, parameter);
    lemma_verb_table(uppercase(verb));
    encode_utf8_valid_utf8(text);
    encode_utf8_decode_utf8(text);
    assert forall|name: Seq<u8>| uppercase(verb) == name implies #[trigger] spelled(verb, name) by {
        assert forall|k: int| 0 <= k < verb.len() implies (#[trigger] verb[k] == name[k] || verb[k]
            == name[k] + 32) by {
            assert(uppercase(verb)[k] == name[k]);
        }
    }
}

/// The six numbers of an address, with commas between them.
pub open spec fn address_of(a: nat, b: nat, c: nat, d: nat, high: nat, low: nat) -> Seq<u8> {
    encode_utf8(
        numeral(a) + ","@ + (numeral(b) + ","@ + (numeral(c) + ","@ + (numeral(d) + ","@ + (numeral(
            high,
        ) + ","@ + numeral(low))))),
    )
}

/// The pieces of an address are its numbers.
proof fn lemma_address(a: nat, b: nat, c: nat, d: nat, high: nat, low: nat)
    requires
        a < 256,
        b < 256,
        c < 256,
        d < 256,
        high < 256,
        low < 256,
    ensures
        numbers(split(address_of(a, b, c, d, high, low), COMMA)) == seq![
            a as u8,
            b as u8,
            c as u8,
            d as u8,
            high as u8,
            low as u8,
        ],
        address_fault(Some(address_of(a, b, c, d, high, low))) == (if high * 256 + low <= 1000 {
            Some(LineFault::ReservedPort)
        } else {
            None
        }),
        has_no_space(address_of(a, b, c, d, high, low)),
{
    let a5 = numeral(low);
    let a4 = numeral(high) + ","@ + a5;
    let a3 = numeral(d) + ","@ + a4;
    let a2 = numeral(c) + ","@ + a3;
    let a1 = numeral(b) + ","@ + a2;
    lemma_encode_piece(a, a1);
    lemma_encode_piece(b, a2);
    lemma_encode_piece(c, a3);
    lemma_encode_piece(d, a4);
    lemma_encode_piece(high, a5);
    lemma_number_piece(a, encode_utf8(a1));
    lemma_number_piece(b, encode_utf8(a2));
    lemma_number_piece(c, encode_utf8(a3));
    lemma_number_piece(d, encode_utf8(a4));
    lemma_number_piece(high, encode_utf8(a5));
    lemma_number_piece(low, seq![]);
    lemma_numeral(a);
    lemma_numeral(b);
    lemma_numeral(c);
    lemma_numeral(d);
    lemma_numeral(high);
    lemma_numeral(low);
    let pieces = split(address_of(a, b, c, d, high, low), COMMA);
    assert(pieces =~= seq![
        encode_utf8(numeral(a)),
        encode_utf8(numeral(b)),
        encode_utf8(numeral(c)),
        encode_utf8(numeral(d)),
        encode_utf8(numeral(high)),
        encode_utf8(numeral(low)),
    ]);
    assert(numbers(pieces) =~= seq![
        a as u8,
        b as u8,
        c as u8,
        d as u8,
        high as u8,
        low as u8,
    ]);
    assert forall|k: int| 0 <= k < pieces.len() implies valid_utf8(#[trigger] pieces[k]) by {}
    assert(has_no_space(encode_utf8(a5)));
    assert(has_no_space(encode_utf8(a4)));
    assert(has_no_space(encode_utf8(a3)));
    assert(has_no_space(encode_utf8(a2)));
    assert(has_no_space(encode_utf8(a1)));
}

/// The address that the server gives for a port is that of the local machine and the two bytes
/// of the port, the higher one first.
pub proof fn law_passive_address(port: u16)
    ensures
        encode_utf8(passive_address(port)) == address_of(
            127,
            0,
            0,
            1,
            (port / 256) as nat,
            (port % 256) as nat,
        ),
{
    let high = (port / 256) as nat;
    let low = (port % 256) as nat;
    reveal_strlit("127,0,0,1,");
    reveal_strlit(",");
    reveal_with_fuel(numeral, 3);
    assert(numeral(127) =~= seq!['1', '2', '7']);
    assert(numeral(0) =~= seq!['0']);
    assert(numeral(1) =~= seq!['1']);
    assert(passive_address(port) =~= numeral(127) + ","@ + (numeral(0) + ","@ + (numeral(0) + ","@
        + (numeral(1) + ","@ + (numeral(high) + ","@ + numeral(low))))));
}

/// The address that the server gives for a port is one that a client may name in turn: it is
/// read back as the same port.
pub proof fn law_passive_address_reads_back(port: u16)
    requires
        port > 1000,
    ensures
        address_fault(Some(encode_utf8(passive_address(port)))) is None,
        address_port(encode_utf8(passive_address(port))) == port,
{
    let high = (port / 256) as nat;
    let low = (port % 256) as nat;
    law_passive_address(port);
    lemma_address(127, 0, 0, 1, high, low);
    assert(high * 256 + low == port);
}

/// `PORT` and an address stand for the port that the last two of its numbers make, which has to
/// be above 1000.
pub proof fn law_port_line(
    verb: Seq<u8>,
    a: nat,
    b: nat,
    c: nat,
    d: nat,
    high: nat,
    low: nat,
)
    requires
        spelled(verb, seq![80, 79, 82, 84]),
        a < 256,
        b < 256,
        c < 256,
        d < 256,
        high < 256,
        low < 256,
    ensures
        ({
            let line = line_of(verb, Some(address_of(a, b, c, d, high, low)));
            if high * 256 + low > 1000 {
                &&& line_fault(line) is None
                &&& line_command(line) == CommandModel::Port((high * 256 + low) as u16)
            } else {
                line_fault(line) == Some(LineFault::ReservedPort)
            }
        }),
{
    let address = address_of(a, b, c, d, high, low);
    let name = seq![80u8, 79u8, 82u8, 84u8];
    lemma_address(a, b, c, d, high, low);
    lemma_line(verb, Some(address), name);
    lemma_verb_table(name);
    assert(name.len() == 4 && name[0] == 80 && name[1] == 79);
}

/// `PORT` stands for nothing without an address, with one that has a piece between commas that
/// is not text, and with one of more or fewer than six numbers.
pub proof fn law_port_line_refused(verb: Seq<u8>, parameter: Option<Seq<u8>>, at: int)
    requires
        spelled(verb, seq![80, 79, 82, 84]),
        parameter matches Some(bytes) ==> has_no_space(bytes),
    ensures
        match parameter {
            None => line_fault(line_of(verb, parameter)) == Some(LineFault::NoParameter),
            Some(address) => {
                let pieces = split(address, COMMA);
                if 0 <= at < pieces.len() && !valid_utf8(pieces[at]) {
                    line_fault(line_of(verb, parameter)) == Some(LineFault::NotUtf8)
                } else {
                    &&& numbers(pieces).len() != 6 ==> line_fault(line_of(verb, parameter)) is Some
                    &&& numbers(pieces).len() != 6 && valid_utf8(address) ==> line_fault(
                        line_of(verb, parameter),
                    ) == Some(LineFault::InvalidAddress)
                }
            },
        },
{
    let name = seq![80u8, 79u8, 82u8, 84u8];
    lemma_line(verb, parameter, name);
    lemma_verb_table(name);
    assert(name.len() == 4 && name[0] == 80 && name[1] == 79);
    if parameter is Some && valid_utf8(parameter->0) {
        assert(parameter->0.skip(0) =~= parameter->0);
        lemma_utf8_pieces(parameter->0, COMMA, 0);
    }
}

/// The numbers among pieces are those of the pieces that spell one, in order.
pub proof fn law_numbers(pieces: Seq<Seq<u8>>, more: Seq<u8>)
    ensures
        numbers(seq![]) == Seq::<u8>::empty(),
        byte_value(more) matches Some(number) ==> numbers(pieces.push(more)) == numbers(
            pieces,
        ).push(number),
        byte_value(more) is None ==> numbers(pieces.push(more)) == numbers(pieces),
{
    assert(pieces.push(more).drop_last() =~= pieces);
}

/// A number below 256 is read from its numeral, also with a plus sign or with zeros before it.
/// A higher one is not, and neither is what has no digit or a byte that is none.
pub proof fn law_byte_value(n: nat, s: Seq<u8>, at: int)
    ensures
        byte_value(encode_utf8(numeral(n))) == (if n < 256 {
            Some(n as u8)
        } else {
            None
        }),
        all_digits(s) ==> byte_value(seq![43u8] + s) == byte_value(s),
        all_digits(s) ==> byte_value(seq![48u8] + s) == byte_value(s),
        byte_value(seq![]) is None,
        byte_value(seq![43u8]) is None,
        0 <= at < s.len() && !(48 <= s[at] <= 57) && !(at == 0 && s[0] == 43) ==> byte_value(
            s,
        ) is None,
{
    lemma_numeral(n);
    let digits = encode_utf8(numeral(n));
    assert(digits[0] != 43);
    if all_digits(s) {
        let zero = seq![48u8] + s;
        assert(s[0] != 43);
        assert((seq![43u8] + s).drop_first() =~= s);
        lemma_leading_zero(s);
        assert(all_digits(zero));
        assert(zero[0] == 48);
    }
    assert(seq![43u8].drop_first() =~= seq![]);
    if 0 <= at < s.len() && !(48 <= s[at] <= 57) && !(at == 0 && s[0] == 43) {
        if s[0] == 43 {
            assert(s.drop_first()[at - 1] == s[at]);
        }
    }
}

/// A zero before digits does not change their value.
proof fn lemma_leading_zero(digits: Seq<u8>)
    ensures
        digits_value(seq![48u8] + digits) == digits_value(digits),
    decreases digits.len(),
{
    let zero = seq![48u8] + digits;
    if digits.len() == 0 {
        assert(zero.drop_last() =~= seq![]);
        assert(zero.last() == 48);
        assert(digits_value(zero.drop_last()) == 0);
    } else {
        assert(zero.drop_last() =~= seq![48u8] + digits.drop_last());
        lemma_leading_zero(digits.drop_last());
    }
}

}
