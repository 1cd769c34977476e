use yesterfile::cli::{discover_json, discover_lines};
use yesterfile::native::{bytes_of_path, is_text, path_of_bytes, readable_text, readable_texts};
use yesterfile::opening::project_id;
use yesterfile::procedure::Failure;

fn texts(list: &[&str]) -> Vec<String> {
    list.iter().map(|text| (*text).to_owned()).collect()
}

#[test]
fn a_path_that_is_text_stands_for_itself() {
    for path in ["", "/home/me", "/home/m\u{e9}/\u{1f600}.txt"] {
        assert_eq!(path_of_bytes(&path.as_bytes().to_vec()), path);
        assert_eq!(bytes_of_path(path), path.as_bytes());
        assert!(is_text(path));
        assert_eq!(readable_text(path), path);
    }
}

#[test]
fn a_path_keeps_the_bytes_that_are_no_text() {
    let cases: [&[u8]; 4] = [b"/a/\xff", b"\x80/b", b"/\xc3\xa9/\xe9t\xe9", b"\xed\xa0\x80x"];
    for bytes in cases {
        let path = path_of_bytes(&bytes.to_vec());
        assert_eq!(bytes_of_path(&path), bytes);
        assert!(!is_text(&path));
        assert_eq!(readable_text(&path), String::from_utf8_lossy(bytes));
    }
    assert_eq!(path_of_bytes(&b"/a/\xff".to_vec()), "/a/\0\u{ff}");
    assert_eq!(path_of_bytes(&b"\xe9t".to_vec()), "\0\u{e9}t");
}

#[test]
fn a_worktree_whose_path_is_no_text_is_listed_and_not_printed_as_json() {
    let odd = path_of_bytes(&b"/w/\xff".to_vec());
    assert_eq!(readable_texts(&vec!["/a".into(), odd.clone()]), ["/a", "/w/\u{fffd}"]);
    assert_eq!(discover_lines(&vec![odd.clone()]), texts(&["/w/\u{fffd}"]));
    assert_eq!(
        discover_json(&vec!["/a".into(), odd]),
        Err(Failure::NotText("path contains invalid UTF-8 characters".into()))
    );
}

#[test]
fn a_project_is_known_by_the_path_as_it_is_shown() {
    let odd = path_of_bytes(&b"/w/\xff".to_vec());
    assert_eq!(project_id(&odd), project_id("/w/\u{fffd}"));
    assert_ne!(project_id(&odd), project_id("/w/x"));
}
