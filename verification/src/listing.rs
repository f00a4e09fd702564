//! The lines of a directory listing.

use crate::path::{UnixPath, SLASH};
use crate::text::{
    decimal, find_from, lemma_find_from, lemma_split_concat, lemma_split_first, numeral,
    signed_decimal, signed_numeral, split, split_bytes, split_from, utf8_text,
};
use vstd::prelude::*;
use vstd::slice::slice_to_vec;
use vstd::string::*;
use vstd::utf8::*;

verus! {

/// The earliest time, in seconds from the epoch, that has a year whatever the time zone.
pub const EARLIEST_TIME: i64 = -67_768_038_462_257_152;

/// The latest time, in seconds from the epoch, that has a year whatever the time zone.
pub const LATEST_TIME: i64 = 67_768_034_044_193_151;

/// What a listing shows of the time of a file, in the time zone of the server.
#[derive(Clone, Copy, Debug, PartialEq, Eq, Structural)]
pub struct LocalTime {
    /// Months since January.
    pub month: i32,
    /// Day of the month.
    pub day: i32,
    /// Hours since midnight.
    pub hour: i32,
    /// Minutes after the hour.
    pub minute: i32,
}

/// Whether the fields are those of a time of some day.
pub open spec fn is_calendar_time(time: LocalTime) -> bool {
    &&& 0 <= time.month <= 11
    &&& 1 <= time.day <= 31
    &&& 0 <= time.hour <= 23
    &&& 0 <= time.minute <= 59
}

/// Whether a year has a day more than others.
pub open spec fn is_leap_year(year: int) -> bool {
    year % 4 == 0 && (year % 100 != 0 || year % 400 == 0)
}

/// How many days a month has, counted from January.
pub open spec fn days_in_month(year: int, month: int) -> int {
    if month == 1 {
        if is_leap_year(year) {
            29
        } else {
            28
        }
    } else if month == 3 || month == 5 || month == 8 || month == 10 {
        30
    } else {
        31
    }
}

/// How many days lie between the epoch and the beginning of a year.
pub open spec fn days_to_year(year: int) -> int {
    365 * (year - 1970) + ((year - 1) / 4 - 492) - ((year - 1) / 100 - 19) + ((year - 1) / 400 - 4)
}

/// How many days lie between the beginning of a year and that of a month in it.
pub open spec fn days_to_month(year: int, month: int) -> int
    decreases month,
{
    if month <= 0 {
        0
    } else {
        days_to_month(year, month - 1) + days_in_month(year, month - 1)
    }
}

/// How many seconds lie between the epoch and a minute of a year, in universal time.
pub open spec fn seconds_to_minute(year: int, time: LocalTime) -> int {
    (((days_to_year(year) + days_to_month(year, time.month as int) + time.day - 1) * 24 + time.hour)
        * 60 + time.minute) * 60
}

/// How far a local time can be from universal time, in seconds: as far as the field for it in
/// a `Tm` reaches.
pub const ZONE_RANGE: i64 = 2_147_483_648;

/// Whether the seconds, in universal time, are within the given minute of the year, once it is
/// moved by some offset of a time zone.
pub open spec fn is_minute_at(year: int, second: int, time: LocalTime, seconds: int) -> bool {
    &&& 1 <= time.day <= days_in_month(year, time.month as int)
    &&& 0 <= second <= 60
    &&& -ZONE_RANGE <= seconds_to_minute(year, time) + second - seconds <= ZONE_RANGE
}

/// Whether `time` is what a clock shows at `seconds` from the epoch in some time zone.
pub open spec fn is_local_time(seconds: int, time: LocalTime) -> bool {
    &&& is_calendar_time(time)
    &&& exists|year: int, second: int| #[trigger] is_minute_at(year, second, time, seconds)
}

/// Whether the machine counts seconds in a type that holds the given ones: 64 bits wide with
/// 64-bit addresses, and at least 32 bits wide.
pub open spec fn is_countable(seconds: int) -> bool {
    usize::BITS == 64 || i32::MIN <= seconds <= i32::MAX
}

/// The days of the months make up a year, and years follow each other.
pub proof fn law_calendar(year: int)
    ensures
        days_to_month(year, 12) == (if is_leap_year(year) {
            366int
        } else {
            365
        }),
        days_to_year(1970) == 0,
        days_to_year(year + 1) == days_to_year(year) + days_to_month(year, 12),
{
    reveal_with_fuel(days_to_month, 13);
}

/// The times that can be shown are those whose years fit in 32 bits, counted from 1900, once
/// they are moved by any offset of a time zone.
pub proof fn law_time_range()
    ensures
        EARLIEST_TIME == 86_400 * days_to_year(1900 + i32::MIN) + ZONE_RANGE,
        LATEST_TIME == 86_400 * days_to_year(1900 + i32::MAX + 1) - 1 - ZONE_RANGE,
{
}

/// The local time at `seconds` from the epoch.
///
/// Trusted: `time::at` fills the fields of a `Tm` with the calendar time of the local time zone,
/// within the ranges that its documentation gives. This time is the universal one, moved by an
/// offset that the field `tm_utcoff` holds. Which offset depends on the machine, and is left
/// unsaid. The seconds are first narrowed to the type in which the machine counts them. It
/// panics where the year does not fit in its field. Within the given times it fits for every
/// offset from UTC that a `Tm` can hold.
#[verifier::external_body]
fn local_time(seconds: i64) -> (time: LocalTime)
    requires
        EARLIEST_TIME <= seconds <= LATEST_TIME,
    ensures
        is_calendar_time(time),
        is_countable(seconds as int) ==> is_local_time(seconds as int, time),
{
    let tm = time::at(time::Timespec::new(seconds, 0));
    LocalTime { month: tm.tm_mon, day: tm.tm_mday, hour: tm.tm_hour, minute: tm.tm_min }
}

/// The local time of a file that was last written at `modified`, in seconds from the
/// epoch, and its size.
pub fn get_file_info(modified: i64, size: u64) -> (info: (LocalTime, u64))
    requires
        EARLIEST_TIME <= modified <= LATEST_TIME,
    ensures
        is_calendar_time(info.0),
        is_countable(modified as int) ==> is_local_time(modified as int, info.0),
        info.1 == size,
{
    (local_time(modified), size)
}

/// What a listing needs to know of a file.
#[derive(Clone, Debug)]
pub struct FileInfo {
    pub path: UnixPath,
    pub is_dir: bool,
    pub readonly: bool,
    pub time: LocalTime,
    pub size: u64,
}

/// The mathematical counterpart of a [`FileInfo`].
#[verifier::ext_equal]
pub struct FileInfoModel {
    pub path: Seq<u8>,
    pub is_dir: bool,
    pub readonly: bool,
    pub time: LocalTime,
    pub size: u64,
}

impl View for FileInfo {
    type V = FileInfoModel;

    open spec fn view(&self) -> FileInfoModel {
        FileInfoModel {
            path: self.path@,
            is_dir: self.is_dir,
            readonly: self.readonly,
            time: self.time,
            size: self.size,
        }
    }
}

impl FileInfo {
    /// What a listing needs to know of the file at `path`, which was last written at
    /// `modified`, in seconds from the epoch.
    pub fn new(path: UnixPath, is_dir: bool, readonly: bool, modified: i64, size: u64) -> (info:
        FileInfo)
        requires
            EARLIEST_TIME <= modified <= LATEST_TIME,
        ensures
            info@ == (FileInfoModel { path: path@, is_dir, readonly, time: info.time, size }),
            is_calendar_time(info.time),
            is_countable(modified as int) ==> is_local_time(modified as int, info.time),
    {
        let (time, size) = get_file_info(modified, size);
        FileInfo { path, is_dir, readonly, time, size }
    }
}

/// The short name of a month, counted from January.
pub open spec fn month_name(month: int) -> Seq<char> {
    if month == 0 {
        "Jan"@
    } else if month == 1 {
        "Feb"@
    } else if month == 2 {
        "Mar"@
    } else if month == 3 {
        "Apr"@
    } else if month == 4 {
        "May"@
    } else if month == 5 {
        "Jun"@
    } else if month == 6 {
        "Jul"@
    } else if month == 7 {
        "Aug"@
    } else if month == 8 {
        "Sep"@
    } else if month == 9 {
        "Oct"@
    } else if month == 10 {
        "Nov"@
    } else {
        "Dec"@
    }
}

fn month_text(month: i32) -> (text: &'static str)
    requires
        0 <= month <= 11,
    ensures
        text@ == month_name(month as int),
{
    match month {
        0 => "Jan",
        1 => "Feb",
        2 => "Mar",
        3 => "Apr",
        4 => "May",
        5 => "Jun",
        6 => "Jul",
        7 => "Aug",
        8 => "Sep",
        9 => "Oct",
        10 => "Nov",
        _ => "Dec",
    }
}

/// The part of a path behind its last slash.
pub open spec fn last_piece(path: Seq<u8>) -> Seq<u8> {
    split(path, SLASH).last()
}

/// The line of a file in a listing; nothing where its path is not valid UTF-8.
pub open spec fn listing_line(info: FileInfoModel) -> Seq<char> {
    if valid_utf8(info.path) {
        (if info.is_dir {
            "d"@
        } else {
            "-"@
        }) + (if info.readonly {
            "r--r--r--"@
        } else {
            "rw-rw-rw-"@
        }) + " 1 anonymous anonymous "@ + numeral(info.size as nat) + " "@ + month_name(
            info.time.month as int,
        ) + " "@ + signed_numeral(info.time.day as int) + " "@ + signed_numeral(
            info.time.hour as int,
        ) + ":"@ + signed_numeral(info.time.minute as int) + " "@ + decode_utf8(
            last_piece(info.path),
        ) + (if info.is_dir {
            "/"@
        } else {
            ""@
        }) + "\r\n"@
    } else {
        seq![]
    }
}

/// The lines of the files in a listing, in order; what could not be looked at is left out.
pub open spec fn listing(files: Seq<Option<FileInfoModel>>) -> Seq<char>
    decreases files.len(),
{
    if files.len() == 0 {
        seq![]
    } else {
        listing(files.drop_last()) + (match files.last() {
            Some(info) => listing_line(info),
            None => seq![],
        })
    }
}

/// The listing of files and then of others is the one listing and then the other.
pub proof fn law_listing_in_order(
    first: Seq<Option<FileInfoModel>>,
    second: Seq<Option<FileInfoModel>>,
)
    ensures
        listing(first + second) == listing(first) + listing(second),
    decreases second.len(),
{
    let whole = first + second;
    if second.len() == 0 {
        assert(whole =~= first);
        assert(listing(first) + listing(second) =~= listing(first));
    } else {
        assert(whole.drop_last() =~= first + second.drop_last());
        law_listing_in_order(first, second.drop_last());
        assert(listing(whole) =~= listing(first) + listing(second));
    }
}

/// Each file that could be looked at has its line in a listing, and nothing else is in it.
pub proof fn law_listing_of_one(info: FileInfoModel)
    ensures
        listing(seq![]) == Seq::<char>::empty(),
        listing(seq![None]) == Seq::<char>::empty(),
        listing(seq![Some(info)]) == listing_line(info),
{
    let none = seq![None::<FileInfoModel>];
    let one = seq![Some(info)];
    assert(none.drop_last() =~= seq![]);
    assert(one.drop_last() =~= seq![]);
    reveal_with_fuel(listing, 2);
    assert(listing(none) =~= seq![]);
    assert(listing(one) =~= listing_line(info));
}

/// The line of a file shows whether it is a directory, its rights, its size, its date with the
/// first three letters of the month, and all of its name, which is what stands behind the last
/// slash of its path.
pub proof fn law_listing_line(info: FileInfoModel, folder: Seq<u8>, name: Seq<char>)
    requires
        info.path == folder + encode_utf8(name),
        folder.len() == 0 || folder.last() == 47,
        forall|k: int| 0 <= k < encode_utf8(name).len() ==> encode_utf8(name)[k] != 47,
        valid_utf8(info.path),
        0 <= info.time.month <= 11,
    ensures
        listing_line(info) == (if info.is_dir {
            seq!['d']
        } else {
            seq!['-']
        }) + (if info.readonly {
            seq!['r', '-', '-', 'r', '-', '-', 'r', '-', '-']
        } else {
            seq!['r', 'w', '-', 'r', 'w', '-', 'r', 'w', '-']
        }) + " 1 anonymous anonymous "@ + numeral(info.size as nat) + seq![' ']
            + "JanFebMarAprMayJunJulAugSepOctNovDec"@.subrange(
            3 * info.time.month,
            3 * info.time.month + 3,
        ) + seq![' '] + signed_numeral(info.time.day as int) + seq![' '] + signed_numeral(
            info.time.hour as int,
        ) + seq![':'] + signed_numeral(info.time.minute as int) + seq![' '] + name + (if info.is_dir
        {
            seq!['/']
        } else {
            seq![]
        }) + seq!['\r', '\n'],
{
    let bytes = encode_utf8(name);
    lemma_split_first(bytes, SLASH, seq![]);
    if folder.len() > 0 {
        let front = folder.drop_last();
        assert(info.path =~= front.push(SLASH) + bytes);
        lemma_split_concat(front, SLASH, bytes);
    } else {
        assert(info.path =~= bytes);
    }
    assert(last_piece(info.path) == bytes);
    encode_utf8_decode_utf8(name);
    lemma_month_letters(info.time.month as int);
    lemma_literals();
}

/// A file whose path is not text has no line.
pub proof fn law_listing_line_not_text(info: FileInfoModel)
    requires
        !valid_utf8(info.path),
    ensures
        listing_line(info).len() == 0,
{
}

/// The literals of a listing line as characters.
proof fn lemma_literals()
    ensures
        "d"@ == seq!['d'],
        "-"@ == seq!['-'],
        "r--r--r--"@ == seq!['r', '-', '-', 'r', '-', '-', 'r', '-', '-'],
        "rw-rw-rw-"@ == seq!['r', 'w', '-', 'r', 'w', '-', 'r', 'w', '-'],
        " "@ == seq![' '],
        ":"@ == seq![':'],
        "/"@ == seq!['/'],
        ""@ == Seq::<char>::empty(),
        "\r\n"@ == seq!['\r', '\n'],
{
    reveal_strlit("d");
    reveal_strlit("-");
    reveal_strlit("r--r--r--");
    reveal_strlit("rw-rw-rw-");
    reveal_strlit(" ");
    reveal_strlit(":");
    reveal_strlit("/");
    reveal_strlit("");
    reveal_strlit("\r\n");
    assert("d"@ =~= seq!['d']);
    assert("-"@ =~= seq!['-']);
    assert("r--r--r--"@ =~= seq!['r', '-', '-', 'r', '-', '-', 'r', '-', '-']);
    assert("rw-rw-rw-"@ =~= seq!['r', 'w', '-', 'r', 'w', '-', 'r', 'w', '-']);
    assert(" "@ =~= seq![' ']);
    assert(":"@ =~= seq![':']);
    assert("/"@ =~= seq!['/']);
    assert(""@ =~= seq![]);
    assert("\r\n"@ =~= seq!['\r', '\n']);
}

/// The names of the months one after the other.
proof fn lemma_month_letters(month: int)
    requires
        0 <= month <= 11,
    ensures
        month_name(month) == "JanFebMarAprMayJunJulAugSepOctNovDec"@.subrange(
            3 * month,
            3 * month + 3,
        ),
{
    reveal_strlit("JanFebMarAprMayJunJulAugSepOctNovDec");
    reveal_strlit("Jan");
    reveal_strlit("Feb");
    reveal_strlit("Mar");
    reveal_strlit("Apr");
    reveal_strlit("May");
    reveal_strlit("Jun");
    reveal_strlit("Jul");
    reveal_strlit("Aug");
    reveal_strlit("Sep");
    reveal_strlit("Oct");
    reveal_strlit("Nov");
    reveal_strlit("Dec");
    assert(month_name(month) =~= "JanFebMarAprMayJunJulAugSepOctNovDec"@.subrange(
        3 * month,
        3 * month + 3,
    ));
}

/// Where a byte of ASCII stands in valid UTF-8, both sides of it are valid UTF-8.
proof fn lemma_utf8_sides(bytes: Seq<u8>, at: int)
    requires
        valid_utf8(bytes),
        0 <= at < bytes.len(),
        bytes[at] < 128,
    ensures
        valid_utf8(bytes.take(at)),
        valid_utf8(bytes.skip(at + 1)),
{
    is_char_boundary_iff_is_leading_byte(bytes, at);
    assert(is_leading_byte_width_1(bytes[at]));
    valid_utf8_split(bytes, at);
    let right = bytes.subrange(at, bytes.len() as int);
    assert(right[0] == bytes[at]);
    assert(valid_utf8(right));
    assert(bytes.take(at) =~= bytes.subrange(0, at));
    assert(pop_first_scalar(right) =~= bytes.skip(at + 1));
}

/// The pieces of valid UTF-8 that a byte of ASCII separates are valid UTF-8.
pub proof fn lemma_utf8_pieces(bytes: Seq<u8>, sep: u8, from: int)
    requires
        sep < 128,
        0 <= from <= bytes.len(),
        valid_utf8(bytes.skip(from)),
    ensures
        split_from(bytes, sep, from).len() > 0,
        forall|k: int|
            0 <= k < split_from(bytes, sep, from).len() ==> valid_utf8(
                #[trigger] split_from(bytes, sep, from)[k],
            ),
    decreases bytes.len() - from,
{
    lemma_find_from(bytes, sep, from);
    let at = find_from(bytes, sep, from);
    if at < bytes.len() {
        lemma_utf8_sides(bytes.skip(from), at - from);
        assert(bytes.skip(from).take(at - from) =~= bytes.subrange(from, at));
        assert(bytes.skip(from).skip(at - from + 1) =~= bytes.skip(at + 1));
        lemma_utf8_pieces(bytes, sep, at + 1);
        let rest = split_from(bytes, sep, at + 1);
        let all = split_from(bytes, sep, from);
        assert(all =~= seq![bytes.subrange(from, at)] + rest);
        assert forall|k: int| 0 <= k < all.len() implies valid_utf8(#[trigger] all[k]) by {
            if k > 0 {
                assert(all[k] == rest[k - 1]);
            }
        }
    } else {
        assert(bytes.subrange(from, bytes.len() as int) =~= bytes.skip(from));
    }
}

/// Appends the line of a file to a listing.
pub fn add_file_info(info: &FileInfo, out: &mut String)
    requires
        0 <= info.time.month <= 11,
    ensures
        final(out)@ == old(out)@ + listing_line(info@),
{
    if utf8_text(slice_to_vec(info.path.bytes())).is_none() {
        assert(out@ =~= old(out)@ + listing_line(info@));
        return;
    }
    let mut pieces = split_bytes(info.path.bytes(), SLASH);
    let ghost count = pieces@.len();
    let last = pieces.pop();
    proof {
        assert(info.path@.skip(0) =~= info.path@);
        lemma_utf8_pieces(info.path@, SLASH, 0);
    }
    let name = utf8_text(last.unwrap()).unwrap();
    let mut line = if info.is_dir {
        "d"
    } else {
        "-"
    }.to_owned();
    line.append(
        if info.readonly {
            "r--r--r--"
        } else {
            "rw-rw-rw-"
        },
    );
    line.append(" 1 anonymous anonymous ");
    line.append(decimal(info.size).as_str());
    line.append(" ");
    line.append(month_text(info.time.month));
    line.append(" ");
    line.append(signed_decimal(info.time.day).as_str());
    line.append(" ");
    line.append(signed_decimal(info.time.hour).as_str());
    line.append(":");
    line.append(signed_decimal(info.time.minute).as_str());
    line.append(" ");
    line.append(name.as_str());
    line.append(
        if info.is_dir {
            "/"
        } else {
            ""
        },
    );
    line.append("\r\n");
    assert(line@ =~= listing_line(info@));
    out.append(line.as_str());
}

}
