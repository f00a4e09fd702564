use std::path::{Path, PathBuf};

use ftp_server::path::UnixPath;

fn path(text: &str) -> UnixPath {
    UnixPath::new(text.as_bytes().to_vec())
}

fn text(path: &UnixPath) -> String {
    String::from_utf8(path.bytes().to_vec()).unwrap()
}

/// All texts over the alphabet with at most `length` characters.
fn texts(length: usize) -> Vec<String> {
    let mut all = vec![String::new()];
    let mut last = all.clone();
    for _ in 0..length {
        let mut next = vec![];
        for text in &last {
            for c in ['a', 'b', '.', '/'] {
                next.push(format!("{}{}", text, c));
            }
        }
        all.extend(next.iter().cloned());
        last = next;
    }
    all
}

#[test]
fn single_paths_as_in_the_standard_library() {
    for t in texts(6) {
        let std_path = Path::new(&t);
        let own = path(&t);
        assert_eq!(own.has_root(), std_path.has_root(), "{:?}", t);
        assert_eq!(
            own.parent().map(|p| text(&p)),
            std_path.parent().map(|p| p.to_str().unwrap().to_string()),
            "{:?}",
            t
        );
        assert_eq!(
            own.file_name().map(|p| text(&p)),
            std_path.file_name().map(|p| p.to_str().unwrap().to_string()),
            "{:?}",
            t
        );
        let relative: PathBuf = if std_path.has_root() {
            std_path.iter().skip(1).collect()
        } else {
            std_path.to_path_buf()
        };
        assert_eq!(text(&own.relative()), relative.to_str().unwrap(), "{:?}", t);
    }
}

#[test]
fn pairs_of_paths_as_in_the_standard_library() {
    let all = texts(4);
    for a in &all {
        for b in &all {
            let (std_a, std_b) = (Path::new(a), Path::new(b));
            let (own_a, own_b) = (path(a), path(b));
            assert_eq!(
                text(&own_a.join(&own_b)),
                std_a.join(std_b).to_str().unwrap(),
                "{:?} {:?}",
                a,
                b
            );
            assert_eq!(own_a.starts_with(&own_b), std_a.starts_with(std_b), "{:?} {:?}", a, b);
            assert_eq!(
                own_a.strip_prefix(&own_b).map(|p| text(&p)),
                std_a.strip_prefix(std_b).ok().map(|p| p.to_str().unwrap().to_string()),
                "{:?} {:?}",
                a,
                b
            );
        }
    }
}

#[test]
fn longer_paths() {
    assert_eq!(text(&path("/srv//ftp/./pub/").parent().unwrap()), "/srv//ftp");
    assert_eq!(text(&path("/srv//ftp/./pub/").file_name().unwrap()), "pub");
    assert_eq!(text(&path("/srv//ftp/./pub/x/..").relative()), "srv/ftp/pub/x/..");
    assert_eq!(text(&path("/srv/ftp/a//b/").strip_prefix(&path("/srv/./ftp/")).unwrap()), "a//b");
    assert!(!path("/srv/ftp2").starts_with(&path("/srv/ftp")));
    assert!(path("/srv/ftp2").strip_prefix(&path("/srv/ftp")).is_none());
}

#[test]
fn bytes_that_are_not_text() {
    let odd = UnixPath::new(b"/srv/\xff/\xfe".to_vec());
    assert_eq!(odd.parent().unwrap().bytes(), b"/srv/\xff");
    assert_eq!(odd.file_name().unwrap().bytes(), b"\xfe");
    assert_eq!(odd.duplicate().bytes(), odd.bytes());
}
