//! Text and byte helpers: UTF-8 conversion, splitting and decimal numerals.

use vstd::prelude::*;
use vstd::slice::slice_to_vec;
use vstd::string::*;
use vstd::utf8::*;

verus! {

/// A space.
pub const SPACE: u8 = 32;

/// `+`.
pub const PLUS: u8 = 43;

/// `,`.
pub const COMMA: u8 = 44;

/// The text of `bytes` where they are valid UTF-8.
///
/// Trusted: `String::from_utf8` succeeds exactly on valid UTF-8, and the string it
/// gives holds the characters that the bytes encode.
#[verifier::external_body]
pub(crate) fn utf8_text(bytes: Vec<u8>) -> (text: Option<String>)
    ensures
        text is Some <==> valid_utf8(bytes@),
        text matches Some(s) ==> s@ == decode_utf8(bytes@),
{
    String::from_utf8(bytes).ok()
}

/// Whether `bytes` are valid UTF-8.
pub fn is_utf8(bytes: &[u8]) -> (valid: bool)
    ensures
        valid == valid_utf8(bytes@),
{
    utf8_text(slice_to_vec(bytes)).is_some()
}

/// The first index at or after `from` at which `byte` stands, or the length of `s`.
pub open spec fn find_from(s: Seq<u8>, byte: u8, from: int) -> int
    decreases s.len() - from,
{
    if from >= s.len() {
        s.len() as int
    } else if s[from] == byte {
        from
    } else {
        find_from(s, byte, from + 1)
    }
}

/// Where `find_from` stops: nothing before it is the byte, and it is the byte unless
/// the end was reached.
pub proof fn lemma_find_from(s: Seq<u8>, byte: u8, from: int)
    requires
        0 <= from <= s.len(),
    ensures
        from <= find_from(s, byte, from) <= s.len(),
        find_from(s, byte, from) < s.len() ==> s[find_from(s, byte, from)] == byte,
        forall|k: int| from <= k < find_from(s, byte, from) ==> s[k] != byte,
    decreases s.len() - from,
{
    if from < s.len() && s[from] != byte {
        lemma_find_from(s, byte, from + 1);
    }
}

/// `find_from` is the only index with the properties of [`lemma_find_from`].
pub proof fn lemma_find_from_unique(s: Seq<u8>, byte: u8, from: int, at: int)
    requires
        0 <= from <= at <= s.len(),
        at < s.len() ==> s[at] == byte,
        forall|k: int| from <= k < at ==> s[k] != byte,
    ensures
        find_from(s, byte, from) == at,
    decreases at - from,
{
    if from < at {
        lemma_find_from_unique(s, byte, from + 1, at);
    }
}

/// The first index at or after `from` at which `byte` stands, or the length of `s`.
pub(crate) fn find_byte(s: &[u8], byte: u8, from: usize) -> (at: usize)
    requires
        from <= s@.len(),
    ensures
        at == find_from(s@, byte, from as int),
        from <= at <= s@.len(),
{
    let mut at: usize = from;
    while at < s.len() && s[at] != byte
        invariant
            from <= at <= s@.len(),
            forall|k: int| from <= k < at ==> s@[k] != byte,
        decreases s@.len() - at,
    {
        at = at + 1;
    }
    proof {
        lemma_find_from_unique(s@, byte, from as int, at as int);
    }
    at
}

/// The pieces of `s` from index `from` on, as separated by `sep`.
pub open spec fn split_from(s: Seq<u8>, sep: u8, from: int) -> Seq<Seq<u8>>
    decreases s.len() - from,
{
    let at = find_from(s, sep, from);
    if from <= at < s.len() {
        seq![s.subrange(from, at)] + split_from(s, sep, at + 1)
    } else {
        seq![s.subrange(from, s.len() as int)]
    }
}

/// The pieces of `s` that the byte `sep` separates; always at least one.
pub open spec fn split(s: Seq<u8>, sep: u8) -> Seq<Seq<u8>> {
    split_from(s, sep, 0)
}

/// Splits `s` at each `sep`.
pub(crate) fn split_bytes(s: &[u8], sep: u8) -> (pieces: Vec<Vec<u8>>)
    ensures
        pieces@.len() == split(s@, sep).len(),
        pieces@.len() > 0,
        forall|k: int|
            0 <= k < pieces@.len() ==> (#[trigger] pieces@[k])@ == split(s@, sep)[k],
{
    let mut pieces: Vec<Vec<u8>> = Vec::new();
    let mut from: usize = 0;
    let mut at: usize = find_byte(s, sep, 0);
    while at < s.len()
        invariant
            from <= at <= s@.len(),
            at == find_from(s@, sep, from as int),
            pieces@.len() + split_from(s@, sep, from as int).len() == split(s@, sep).len(),
            forall|k: int|
                0 <= k < pieces@.len() ==> (#[trigger] pieces@[k])@ == split(s@, sep)[k],
            forall|k: int|
                0 <= k < split_from(s@, sep, from as int).len() ==> (#[trigger] split_from(
                    s@,
                    sep,
                    from as int,
                )[k]) == split(s@, sep)[pieces@.len() + k],
        decreases s@.len() - at,
    {
        let ghost rest = split_from(s@, sep, from as int);
        let ghost tail = split_from(s@, sep, at + 1);
        assert(rest =~= seq![s@.subrange(from as int, at as int)] + tail);
        assert(rest[0] == split(s@, sep)[pieces@.len() as int]);
        assert forall|k: int| 0 <= k < tail.len() implies (#[trigger] tail[k]) == split(
            s@,
            sep,
        )[pieces@.len() + 1 + k] by {
            assert(rest[k + 1] == tail[k]);
        }
        pieces.push(part(s, from, at));
        from = at + 1;
        at = find_byte(s, sep, from);
    }
    let ghost rest = split_from(s@, sep, from as int);
    assert(rest =~= seq![s@.subrange(from as int, s@.len() as int)]);
    assert(rest[0] == split(s@, sep)[pieces@.len() as int]);
    pieces.push(part(s, from, at));
    pieces
}

/// The bytes of `s` from `from` up to `to`.
pub(crate) fn part(s: &[u8], from: usize, to: usize) -> (bytes: Vec<u8>)
    requires
        from <= to <= s@.len(),
    ensures
        bytes@ == s@.subrange(from as int, to as int),
{
    let mut bytes: Vec<u8> = Vec::new();
    let mut at: usize = from;
    while at < to
        invariant
            from <= at <= to <= s@.len(),
            bytes@ == s@.subrange(from as int, at as int),
        decreases to - at,
    {
        bytes.push(s[at]);
        at = at + 1;
    }
    bytes
}

/// Whether two byte strings are the same.
pub(crate) fn same_bytes(a: &[u8], b: &[u8]) -> (same: bool)
    ensures
        same == (a@ == b@),
{
    if a.len() != b.len() {
        return false;
    }
    let mut at: usize = 0;
    while at < a.len()
        invariant
            at <= a@.len(),
            a@.len() == b@.len(),
            forall|k: int| 0 <= k < at ==> a@[k] == b@[k],
        decreases a@.len() - at,
    {
        if a[at] != b[at] {
            return false;
        }
        at = at + 1;
    }
    assert(a@ =~= b@);
    true
}

/// The character of a decimal digit.
pub open spec fn digit(d: nat) -> char
    recommends
        d < 10,
{
    (48 + d) as char
}

/// The decimal numeral of a natural number, without leading zeros.
pub open spec fn numeral(n: nat) -> Seq<char>
    decreases n,
{
    if n < 10 {
        seq![digit(n)]
    } else {
        numeral(n / 10).push(digit(n % 10))
    }
}

/// The decimal numeral of an integer, with a minus sign where it is negative.
pub open spec fn signed_numeral(n: int) -> Seq<char> {
    if n < 0 {
        seq!['-'] + numeral((-n) as nat)
    } else {
        numeral(n as nat)
    }
}

fn digit_text(d: u64) -> (text: &'static str)
    requires
        d < 10,
    ensures
        text@ == seq![digit(d as nat)],
{
    proof {
        reveal_strlit("0");
        reveal_strlit("1");
        reveal_strlit("2");
        reveal_strlit("3");
        reveal_strlit("4");
        reveal_strlit("5");
        reveal_strlit("6");
        reveal_strlit("7");
        reveal_strlit("8");
        reveal_strlit("9");
    }
    match d {
        0 => "0",
        1 => "1",
        2 => "2",
        3 => "3",
        4 => "4",
        5 => "5",
        6 => "6",
        7 => "7",
        8 => "8",
        _ => "9",
    }
}

/// Writes `n` in decimal.
pub fn decimal(n: u64) -> (text: String)
    ensures
        text@ == numeral(n as nat),
    decreases n,
{
    if n < 10 {
        digit_text(n).to_owned()
    } else {
        let mut text = decimal(n / 10);
        text.append(digit_text(n % 10));
        text
    }
}

/// Writes `n` in decimal.
pub fn signed_decimal(n: i32) -> (text: String)
    ensures
        text@ == signed_numeral(n as int),
{
    if n < 0 {
        proof {
            reveal_strlit("-");
        }
        let mut text = "-".to_owned();
        let magnitude: u64 = (-(n as i64)) as u64;
        text.append(decimal(magnitude).as_str());
        assert("-"@ =~= seq!['-']);
        text
    } else {
        decimal(n as u64)
    }
}

/// The value of a sequence of decimal digits in ASCII.
pub open spec fn digits_value(digits: Seq<u8>) -> nat
    decreases digits.len(),
{
    if digits.len() == 0 {
        0
    } else {
        (digits_value(digits.drop_last()) * 10 + (digits.last() - 48)) as nat
    }
}

/// Whether the bytes are decimal digits in ASCII, one at least.
pub open spec fn all_digits(s: Seq<u8>) -> bool {
    s.len() > 0 && forall|k: int| 0 <= k < s.len() ==> 48 <= #[trigger] s[k] <= 57
}

/// The number below 256 that `s` spells in decimal, with or without a plus sign before it.
pub open spec fn byte_value(s: Seq<u8>) -> Option<u8> {
    let digits = if s.len() > 0 && s[0] == PLUS {
        s.drop_first()
    } else {
        s
    };
    if all_digits(digits) && digits_value(digits) <= 255 {
        Some(digits_value(digits) as u8)
    } else {
        None
    }
}

/// More digits never make the value smaller.
pub proof fn lemma_digits_value_grows(s: Seq<u8>, k: int)
    requires
        0 <= k <= s.len(),
        forall|i: int| 0 <= i < s.len() ==> 48 <= #[trigger] s[i] <= 57,
    ensures
        digits_value(s.take(k)) <= digits_value(s),
    decreases s.len() - k,
{
    if k < s.len() {
        assert(s.take(k + 1).drop_last() =~= s.take(k));
        lemma_digits_value_grows(s, k + 1);
    } else {
        assert(s.take(k) =~= s);
    }
}

/// Reads a number below 256 from its decimal digits.
pub fn parse_byte(s: &[u8]) -> (value: Option<u8>)
    ensures
        value == byte_value(s@),
{
    let start: usize = if s.len() > 0 && s[0] == PLUS {
        1
    } else {
        0
    };
    let ghost digits = if s@.len() > 0 && s@[0] == PLUS {
        s@.drop_first()
    } else {
        s@
    };
    assert(digits =~= s@.skip(start as int));
    if start == s.len() {
        return None;
    }
    let mut value: u32 = 0;
    let mut at: usize = start;
    while at < s.len()
        invariant
            start <= at <= s@.len(),
            start < s@.len(),
            digits == s@.skip(start as int),
            byte_value(s@) == (if all_digits(digits) && digits_value(digits) <= 255 {
                Some(digits_value(digits) as u8)
            } else {
                None
            }),
            value <= 255,
            forall|k: int| 0 <= k < at - start ==> 48 <= #[trigger] digits[k] <= 57,
            value == digits_value(digits.take(at - start)),
        decreases s@.len() - at,
    {
        let byte: u8 = s[at];
        assert(byte == digits[at - start]);
        if byte < 48 || byte > 57 {
            return None;
        }
        assert(digits.take(at - start + 1).drop_last() =~= digits.take(at - start));
        let next: u32 = value * 10 + (byte - 48) as u32;
        if next > 255 {
            proof {
                if all_digits(digits) {
                    lemma_digits_value_grows(digits, at - start + 1);
                }
            }
            return None;
        }
        value = next;
        at = at + 1;
    }
    assert(digits.take(s@.len() - start) =~= digits);
    Some(value as u8)
}

/// The three texts one after the other.
pub(crate) fn joined(first: &str, second: &str, third: &str) -> (text: String)
    ensures
        text@ == first@ + second@ + third@,
{
    let mut text = first.to_owned();
    text.append(second);
    text.append(third);
    text
}

/// The UTF-8 of two texts in a row is the UTF-8 of the one and then of the other.
pub proof fn lemma_encode_concat(first: Seq<char>, second: Seq<char>)
    ensures
        encode_utf8(first + second) == encode_utf8(first) + encode_utf8(second),
    decreases first.len(),
{
    if first.len() == 0 {
        assert(first + second =~= second);
        assert(encode_utf8(first) + encode_utf8(second) =~= encode_utf8(second));
    } else {
        let whole = first + second;
        assert(whole.drop_first() =~= first.drop_first() + second);
        lemma_encode_concat(first.drop_first(), second);
        assert(encode_utf8(whole) =~= encode_utf8(first) + encode_utf8(second));
    }
}

/// The digits of a numeral are ASCII digits, and its UTF-8 has the value of the number.
pub proof fn lemma_numeral(n: nat)
    ensures
        is_ascii_chars(numeral(n)),
        all_digits(encode_utf8(numeral(n))),
        digits_value(encode_utf8(numeral(n))) == n,
    decreases n,
{
    let last = seq![digit(n % 10)];
    let code = (48 + n % 10) as u8;
    assert(is_ascii_chars(last));
    is_ascii_chars_encode_utf8(last);
    assert(encode_utf8(last) =~= seq![code]);
    if n < 10 {
        assert(numeral(n) =~= last);
        let bytes = encode_utf8(numeral(n));
        assert(bytes.drop_last() =~= seq![]);
        assert(digits_value(bytes.drop_last()) == 0);
        assert(bytes.last() == 48 + n);
        assert(digits_value(bytes) == n);
    } else {
        lemma_numeral(n / 10);
        let front = numeral(n / 10);
        assert(numeral(n) =~= front + last);
        lemma_encode_concat(front, last);
        let bytes = encode_utf8(numeral(n));
        assert(bytes =~= encode_utf8(front).push(code));
        assert(bytes.drop_last() =~= encode_utf8(front));
        assert(bytes.last() == code);
        assert forall|k: int| 0 <= k < bytes.len() implies 48 <= #[trigger] bytes[k] <= 57 by {
            if k < encode_utf8(front).len() {
                assert(bytes[k] == encode_utf8(front)[k]);
            }
        }
    }
}

/// A number below 256 is read back from its numeral.
pub proof fn lemma_byte_value(n: nat)
    requires
        n < 256,
    ensures
        byte_value(encode_utf8(numeral(n))) == Some(n as u8),
{
    lemma_numeral(n);
    let bytes = encode_utf8(numeral(n));
    assert(bytes[0] != PLUS);
}

/// What a sequence is split into from an index on depends on nothing before that index.
pub proof fn lemma_split_same_tail(s: Seq<u8>, t: Seq<u8>, sep: u8, from: int)
    requires
        0 <= from <= s.len(),
        s.len() == t.len(),
        s.skip(from) == t.skip(from),
    ensures
        split_from(s, sep, from) == split_from(t, sep, from),
    decreases s.len() - from,
{
    assert forall|k: int| from <= k < s.len() implies s[k] == t[k] by {
        assert(s.skip(from)[k - from] == t.skip(from)[k - from]);
    }
    lemma_find_from(s, sep, from);
    let end = find_from(s, sep, from);
    lemma_find_from_unique(t, sep, from, end);
    assert(s.subrange(from, end) =~= t.subrange(from, end));
    if end < s.len() {
        assert(s.skip(end + 1) =~= t.skip(end + 1));
        lemma_split_same_tail(s, t, sep, end + 1);
    }
}

/// The pieces of a suffix are those of the whole from there on.
pub proof fn lemma_split_shift(s: Seq<u8>, sep: u8, skipped: int, from: int)
    requires
        0 <= skipped <= s.len(),
        0 <= from <= s.len() - skipped,
    ensures
        split_from(s, sep, skipped + from) == split_from(s.skip(skipped), sep, from),
    decreases s.len() - from,
{
    let suffix = s.skip(skipped);
    lemma_find_from(suffix, sep, from);
    let end = find_from(suffix, sep, from);
    assert forall|k: int| skipped + from <= k < skipped + end implies s[k] != sep by {
        assert(s[k] == suffix[k - skipped]);
    }
    assert(end < suffix.len() ==> s[skipped + end] == suffix[end]);
    lemma_find_from_unique(s, sep, skipped + from, skipped + end);
    assert(s.subrange(skipped + from, skipped + end) =~= suffix.subrange(from, end));
    if end < suffix.len() {
        lemma_split_shift(s, sep, skipped, end + 1);
    }
}

/// Behind a first piece without a separator come the pieces of what the separator sets off.
pub proof fn lemma_split_first(first: Seq<u8>, sep: u8, rest: Seq<u8>)
    requires
        forall|k: int| 0 <= k < first.len() ==> first[k] != sep,
    ensures
        split(first, sep) == seq![first],
        split(first.push(sep) + rest, sep) == seq![first] + split(rest, sep),
{
    let whole = first.push(sep) + rest;
    let end = first.len() as int;
    lemma_find_from_unique(first, sep, 0, end);
    assert(first.subrange(0, end) =~= first);
    assert forall|k: int| 0 <= k < end implies whole[k] != sep by {
        assert(whole[k] == first[k]);
    }
    assert(whole[end] == sep);
    lemma_find_from_unique(whole, sep, 0, end);
    assert(whole.subrange(0, end) =~= first);
    lemma_split_shift(whole, sep, end + 1, 0);
    assert(whole.skip(end + 1) =~= rest);
}

/// What stands before a separator and what stands behind it are split each by itself.
pub proof fn lemma_split_concat(first: Seq<u8>, sep: u8, rest: Seq<u8>)
    ensures
        split(first.push(sep) + rest, sep) == split(first, sep) + split(rest, sep),
    decreases first.len(),
{
    lemma_find_from(first, sep, 0);
    let end = find_from(first, sep, 0);
    let piece = first.subrange(0, end);
    assert forall|k: int| 0 <= k < piece.len() implies piece[k] != sep by {
        assert(piece[k] == first[k]);
    }
    if end < first.len() {
        let tail = first.skip(end + 1);
        assert(first =~= piece.push(sep) + tail);
        assert(first.push(sep) + rest =~= piece.push(sep) + (tail.push(sep) + rest));
        lemma_split_first(piece, sep, tail);
        lemma_split_first(piece, sep, tail.push(sep) + rest);
        lemma_split_concat(tail, sep, rest);
        assert(split(first.push(sep) + rest, sep) =~= split(first, sep) + split(rest, sep));
    } else {
        assert(piece =~= first);
        lemma_split_first(first, sep, rest);
    }
}

/// The pieces with a separator between any two.
pub open spec fn glued(pieces: Seq<Seq<u8>>, sep: u8) -> Seq<u8>
    decreases pieces.len(),
{
    if pieces.len() == 0 {
        seq![]
    } else if pieces.len() == 1 {
        pieces[0]
    } else {
        pieces[0] + seq![sep] + glued(pieces.drop_first(), sep)
    }
}

/// Splitting loses nothing: no piece holds the separator, and the pieces with the separator
/// between any two are what was split.
pub proof fn law_split(s: Seq<u8>, sep: u8)
    ensures
        split(s, sep).len() > 0,
        forall|k: int, i: int|
            0 <= k < split(s, sep).len() && 0 <= i < split(s, sep)[k].len() ==> #[trigger] split(
                s,
                sep,
            )[k][i] != sep,
        glued(split(s, sep), sep) == s,
    decreases s.len(),
{
    lemma_find_from(s, sep, 0);
    let end = find_from(s, sep, 0);
    let piece = s.subrange(0, end);
    assert forall|k: int| 0 <= k < piece.len() implies piece[k] != sep by {
        assert(piece[k] == s[k]);
    }
    if end < s.len() {
        let tail = s.skip(end + 1);
        assert(s =~= piece.push(sep) + tail);
        lemma_split_first(piece, sep, tail);
        law_split(tail, sep);
        let pieces = split(s, sep);
        assert(pieces.drop_first() =~= split(tail, sep));
        assert forall|k: int, i: int| 0 <= k < pieces.len() && 0 <= i < pieces[k].len() implies
            #[trigger] pieces[k][i] != sep by {
            if k > 0 {
                assert(pieces[k] == split(tail, sep)[k - 1]);
            }
        }
        assert(glued(pieces, sep) =~= s);
    } else {
        assert(piece =~= s);
        lemma_split_first(s, sep, seq![]);
    }
}

/// A negative number is written with a minus sign before its numeral, and any other as it is.
pub proof fn law_signed_numeral(n: nat)
    ensures
        signed_numeral(n as int) == numeral(n),
        n > 0 ==> signed_numeral(-n) == seq!['-'] + numeral(n),
{
}

/// A numeral of more than one digit is the numeral of what stands before its last digit, and
/// then that digit.
pub proof fn law_numeral_digits(n: nat, d: nat)
    requires
        d < 10,
    ensures
        numeral(d) == seq![(48 + d) as char],
        n > 0 ==> numeral(10 * n + d) == numeral(n).push((48 + d) as char),
        digits_value(encode_utf8(numeral(n))) == n,
{
    lemma_numeral(n);
    assert((10 * n + d) / 10 == n && (10 * n + d) % 10 == d);
}

}
