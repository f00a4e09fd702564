use ftp_server::listing::{
    add_file_info, get_file_info, FileInfo, LocalTime, EARLIEST_TIME, LATEST_TIME,
};
use ftp_server::path::UnixPath;

fn info(path: &[u8], is_dir: bool, readonly: bool) -> FileInfo {
    FileInfo {
        path: UnixPath::new(path.to_vec()),
        is_dir,
        readonly,
        time: LocalTime { month: 1, day: 3, hour: 4, minute: 5 },
        size: 1024,
    }
}

fn line(info: &FileInfo) -> String {
    let mut out = String::new();
    add_file_info(info, &mut out);
    out
}

#[test]
fn lines() {
    assert_eq!(
        line(&info(b"/srv/notes.txt", false, false)),
        "-rw-rw-rw- 1 anonymous anonymous 1024 Feb 3 4:5 notes.txt\r\n"
    );
    assert_eq!(
        line(&info(b"/srv/pub", true, true)),
        "dr--r--r-- 1 anonymous anonymous 1024 Feb 3 4:5 pub/\r\n"
    );
    assert_eq!(
        line(&info("\u{e9}t\u{e9}".as_bytes(), false, true)),
        "-r--r--r-- 1 anonymous anonymous 1024 Feb 3 4:5 \u{e9}t\u{e9}\r\n"
    );
    assert_eq!(
        line(&info(b"/srv/pub/", true, false)),
        "drw-rw-rw- 1 anonymous anonymous 1024 Feb 3 4:5 /\r\n"
    );
}

#[test]
fn a_line_is_appended() {
    let mut out = "before\r\n".to_string();
    add_file_info(&info(b"x", false, false), &mut out);
    assert_eq!(out, "before\r\n-rw-rw-rw- 1 anonymous anonymous 1024 Feb 3 4:5 x\r\n");
}

#[test]
fn a_name_that_is_not_text_is_left_out() {
    assert_eq!(line(&info(b"/srv/\xff", false, false)), "");
    assert_eq!(line(&info(b"/\xff/notes.txt", false, false)), "");
}

#[test]
fn months() {
    let names = [
        "Jan", "Feb", "Mar", "Apr", "May", "Jun", "Jul", "Aug", "Sep", "Oct", "Nov", "Dec",
    ];
    for (month, name) in names.iter().enumerate() {
        let mut file = info(b"x", false, false);
        file.time.month = month as i32;
        assert!(line(&file).contains(&format!(" 1024 {} 3 ", name)));
    }
}

#[test]
fn the_time_is_local() {
    for seconds in [0, 1_500_000_000, -86_400, EARLIEST_TIME, LATEST_TIME] {
        let expected = time::at(time::Timespec::new(seconds, 0));
        let (found, size) = get_file_info(seconds, 77);
        assert_eq!(size, 77);
        assert_eq!(found.month, expected.tm_mon);
        assert_eq!(found.day, expected.tm_mday);
        assert_eq!(found.hour, expected.tm_hour);
        assert_eq!(found.minute, expected.tm_min);
        assert!(0 <= found.month && found.month <= 11);
        assert!(1 <= found.day && found.day <= 31);
    }
}

#[test]
fn what_is_known_of_a_file() {
    let file = FileInfo::new(UnixPath::new(b"/a/b".to_vec()), true, false, 1_500_000_000, 9);
    assert_eq!(file.path.bytes(), b"/a/b");
    assert!(file.is_dir);
    assert!(!file.readonly);
    assert_eq!(file.size, 9);
    assert_eq!(file.time, get_file_info(1_500_000_000, 9).0);
}
