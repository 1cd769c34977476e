use yesterfile::git_store::validate_relative_path;
use yesterfile::ordered::{holds_text, rank, sort_texts, Rank};
use yesterfile::path_set::{insert_path, path_rank};
use yesterfile::paths::{
    any_component_in, file_name, is_absolute, join, only_names, parent, same_path, strip_prefix,
    with_slashes, PathStyle,
};
use yesterfile::platform::{display_path_from, expand_path, expand_path_from, AppPaths};
use yesterfile::procedure::Failure;
use yesterfile::text::{same_text, trim};

const POSIX: PathStyle = PathStyle::Posix;
const WINDOWS: PathStyle = PathStyle::Windows;

#[test]
fn absolute_paths() {
    assert!(is_absolute(POSIX, "/"));
    assert!(is_absolute(POSIX, "/a"));
    assert!(!is_absolute(POSIX, "a"));
    assert!(!is_absolute(POSIX, ""));
    assert!(!is_absolute(POSIX, "C:\\a"));
    assert!(is_absolute(WINDOWS, "C:\\a"));
    assert!(is_absolute(WINDOWS, "C:/a"));
    assert!(!is_absolute(WINDOWS, "C:a"));
    assert!(!is_absolute(WINDOWS, "\\a"));
    assert!(is_absolute(WINDOWS, "\\\\server\\share\\a"));
}

#[test]
fn joining() {
    assert_eq!(join(POSIX, "/a", "b"), "/a/b");
    assert_eq!(join(POSIX, "/a/", "b"), "/a/b");
    assert_eq!(join(POSIX, "", "b"), "b");
    assert_eq!(join(POSIX, "/a", "/b"), "/b");
    assert_eq!(join(POSIX, "/a", ""), "/a/");
    assert_eq!(join(WINDOWS, "C:\\a", "b"), "C:\\a\\b");
    assert_eq!(join(WINDOWS, "C:\\a", "\\b"), "C:\\b");
    assert_eq!(join(WINDOWS, "C:", "b"), "C:b");
    assert_eq!(join(WINDOWS, "C:\\a", "D:\\b"), "D:\\b");
}

#[test]
fn joining_behind_a_verbatim_prefix() {
    let joined = |base: &str, rest: &str| join(WINDOWS, base, rest);
    assert_eq!(joined("\\\\?\\C:\\w", "src/a"), "\\\\?\\C:\\w\\src\\a");
    assert_eq!(joined("\\\\?\\C:\\w\\", "src\\a"), "\\\\?\\C:\\w\\src\\a");
    assert_eq!(joined("\\\\?\\C:\\", "a//b/"), "\\\\?\\C:\\a\\b");
    assert_eq!(joined("\\\\?\\C:", "a"), "\\\\?\\C:\\a");
    assert_eq!(joined("\\\\?\\UNC\\s\\x\\w", "a/b"), "\\\\?\\UNC\\s\\x\\w\\a\\b");
    assert_eq!(joined("\\\\?\\name\\w", "a/b"), "\\\\?\\name\\w\\a\\b");
    assert_eq!(joined("\\\\?\\C:\\w\\x", "./a/../../b"), "\\\\?\\C:\\w\\b");
    assert_eq!(joined("\\\\?\\C:\\", "../a"), "\\\\?\\C:\\a");
    assert_eq!(joined("\\\\?\\C:\\w", "/a/b"), "\\\\?\\C:\\a\\b");
    assert_eq!(joined("\\\\?\\C:\\w", "D:\\b"), "D:\\b");
    assert_eq!(joined("\\\\?\\C:\\w", ""), "\\\\?\\C:\\w\\");
    assert_eq!(joined("\\\\?\\C:\\w/x", "a"), "\\\\?\\C:\\w/x\\a");
    assert_eq!(joined("//?/C:/w", "a/b"), "//?/C:/w\\a/b");
    assert_eq!(joined("\\\\.\\COM1", "a/b"), "\\\\.\\COM1\\a/b");
}

#[test]
fn prefixes_of_windows() {
    for path in [
        "\\\\?\\C:",
        "\\\\?\\C:\\",
        "\\\\?\\UNC\\s\\x",
        "\\\\?\\name",
        "\\\\.\\COM1",
        "//s/x",
        "C:/",
    ] {
        assert!(is_absolute(WINDOWS, path), "{path}");
        assert!(!is_absolute(POSIX, path) || path.starts_with('/'), "{path}");
        assert!(validate_relative_path(WINDOWS, path).is_err(), "{path}");
    }
    for path in ["C:", "C:a", "\\\\s", "\\\\s\\", "\\a", "a"] {
        assert!(!is_absolute(WINDOWS, path), "{path}");
    }
    assert!(same_path(WINDOWS, "c:\\a", "C:\\a"));
    assert!(same_path(WINDOWS, "\\\\?\\c:\\a", "\\\\?\\C:\\a"));
    assert!(same_path(WINDOWS, "\\\\s\\x\\a", "//s/x/a"));
    assert!(!same_path(WINDOWS, "\\\\S\\x\\a", "\\\\s\\x\\a"));
    assert!(!same_path(WINDOWS, "C:\\a", "C:\\A"));
    assert!(!same_path(WINDOWS, "\\\\?\\C:\\a", "C:\\a"));
    assert!(!same_path(WINDOWS, "\\\\?\\C:\\a/b", "\\\\?\\C:\\a\\b"));
    assert!(!same_path(WINDOWS, "\\\\?\\C:\\a\\.", "\\\\?\\C:\\a"));
    assert!(same_path(WINDOWS, "C:\\a\\.", "C:\\a"));
    assert!(same_path(WINDOWS, "C:.\\a", "C:a"));
    assert_eq!(
        strip_prefix(WINDOWS, "\\\\?\\c:\\w\\src\\a", "\\\\?\\C:\\w").as_deref(),
        Some("src\\a")
    );
    assert_eq!(strip_prefix(WINDOWS, "\\\\?\\C:\\w\\a", "C:\\w").as_deref(), None);
    assert_eq!(parent(WINDOWS, "\\\\?\\C:\\w").as_deref(), Some("\\\\?\\C:\\"));
    assert_eq!(parent(WINDOWS, "\\\\?\\C:\\").as_deref(), None);
    assert_eq!(file_name(WINDOWS, "\\\\?\\C:\\a/b").as_deref(), Some("a/b"));
    let kinds = [
        "\\\\?\\name\\a",
        "\\\\?\\UNC\\s\\x\\a",
        "\\\\?\\C:\\a",
        "\\\\.\\COM1\\a",
        "\\\\s\\x\\a",
        "C:\\a",
    ];
    for pair in kinds.windows(2) {
        assert!(matches!(path_rank(WINDOWS, pair[0], pair[1]), Rank::Before));
    }
}

#[test]
fn going_up() {
    assert_eq!(parent(POSIX, "/a/b").as_deref(), Some("/a"));
    assert_eq!(parent(POSIX, "/a").as_deref(), Some("/"));
    assert_eq!(parent(POSIX, "/").as_deref(), None);
    assert_eq!(parent(POSIX, "").as_deref(), None);
    assert_eq!(parent(POSIX, "a").as_deref(), Some(""));
    assert_eq!(parent(POSIX, "a//b/").as_deref(), Some("a"));
    assert_eq!(parent(WINDOWS, "C:\\a").as_deref(), Some("C:\\"));
    assert_eq!(parent(WINDOWS, "C:\\").as_deref(), None);
}

#[test]
fn names() {
    assert_eq!(file_name(POSIX, "src/.gitignore").as_deref(), Some(".gitignore"));
    assert_eq!(file_name(POSIX, "src/..").as_deref(), None);
    assert_eq!(file_name(POSIX, "/").as_deref(), None);
    assert_eq!(file_name(WINDOWS, "a\\b").as_deref(), Some("b"));
    assert_eq!(file_name(POSIX, "a\\b").as_deref(), Some("a\\b"));
    assert!(only_names(POSIX, "a/./b//c"));
    assert!(!only_names(POSIX, "./a"));
    assert!(!only_names(POSIX, "a/../b"));
    assert!(!only_names(WINDOWS, "C:a"));
}

#[test]
fn what_a_path_is_relative_to_another() {
    assert_eq!(strip_prefix(POSIX, "/a/b/c", "/a").as_deref(), Some("b/c"));
    assert_eq!(strip_prefix(POSIX, "/a/b/c/", "/a/").as_deref(), Some("b/c"));
    assert_eq!(strip_prefix(POSIX, "/a", "/a").as_deref(), Some(""));
    assert_eq!(strip_prefix(POSIX, "/ab", "/a").as_deref(), None);
    assert_eq!(strip_prefix(POSIX, "/a", "/a/b").as_deref(), None);
    assert_eq!(strip_prefix(WINDOWS, "C:\\a\\b", "C:/a").as_deref(), Some("b"));
}

#[test]
fn one_path_in_two_ways() {
    assert!(same_path(POSIX, "/a//b/./c/", "/a/b/c"));
    assert!(!same_path(POSIX, "/a/b", "a/b"));
    assert!(!same_path(POSIX, "/a/../b", "/b"));
    assert!(same_path(WINDOWS, "C:\\a/b", "C:\\a\\b"));
    assert!(!same_path(POSIX, "a\\b", "a/b"));
}

#[test]
fn components_among_names() {
    let names = vec!["target".to_owned(), "node_modules".to_owned()];
    assert!(any_component_in(POSIX, "a/target/b", &names));
    assert!(any_component_in(POSIX, "target", &names));
    assert!(!any_component_in(POSIX, "a/targets/b", &names));
    assert!(!any_component_in(POSIX, "a/target\\b", &names));
    assert!(any_component_in(WINDOWS, "a/target\\b", &names));
}

#[test]
fn backslashes_become_slashes() {
    assert_eq!(with_slashes("a\\b/c\\"), "a/b/c/");
}

#[test]
fn the_home_directory_is_put_in_place() {
    let home = Some("/home/me".to_owned());
    assert_eq!(expand_path_from(POSIX, "~", &home).unwrap(), "/home/me");
    assert_eq!(expand_path_from(POSIX, "~/a/b", &home).unwrap(), "/home/me/a/b");
    assert_eq!(expand_path_from(POSIX, "~\\a", &home).unwrap(), "/home/me/a");
    assert_eq!(expand_path_from(POSIX, "~other/a", &home).unwrap(), "~other/a");
    assert_eq!(expand_path_from(POSIX, "a/~", &home).unwrap(), "a/~");
    assert_eq!(expand_path_from(POSIX, "~/a", &None), Err(Failure::HomeUnknown));
    assert_eq!(expand_path_from(POSIX, "~", &None), Err(Failure::HomeUnknown));
    assert_eq!(expand_path_from(POSIX, "/a", &None).unwrap(), "/a");
    assert_eq!(expand_path(POSIX, "/as/it/is").unwrap(), "/as/it/is");
}

#[test]
fn the_home_directory_is_shown_as_a_tilde() {
    let home = Some("/home/me".to_owned());
    assert_eq!(display_path_from(POSIX, "/home/me/a/b", &home), "~/a/b");
    assert_eq!(display_path_from(POSIX, "/home/me", &home), "~/");
    assert_eq!(display_path_from(POSIX, "/home/meter", &home), "/home/meter");
    assert_eq!(display_path_from(POSIX, "/home/me/a", &None), "/home/me/a");
    for path in ["/home/me/a/../b", "/home/me/", "/home//me/./a", "/home/meter", "/", "/x"] {
        let text = display_path_from(POSIX, path, &home);
        let again = expand_path_from(POSIX, &text, &home).unwrap();
        assert!(same_path(POSIX, &again, path), "{path}");
    }
    let place = expand_path_from(POSIX, "~/Projects/x", &home).unwrap();
    assert_eq!(display_path_from(POSIX, &place, &home), "~/Projects/x");
}

#[test]
fn platform_paths() {
    let some = |s: &str| Some(s.to_owned());
    let paths = AppPaths::from_directories(
        POSIX,
        &some("/home/me/.config"),
        &some("/home/me/.local/share"),
        &some("/home/me/.local/state"),
    )
    .unwrap();
    assert_eq!(paths.config_file, "/home/me/.config/yesterfile/config.json");
    assert_eq!(paths.data_dir, "/home/me/.local/share/yesterfile");
    assert_eq!(paths.state_dir, "/home/me/.local/state/yesterfile");
    let paths = AppPaths::from_directories(
        WINDOWS,
        &some("C:\\R"),
        &some("C:\\L"),
        &None,
    )
    .unwrap();
    assert_eq!(paths.config_file, "C:\\R\\yesterfile\\config.json");
    assert_eq!(paths.data_dir, "C:\\L\\yesterfile");
    assert_eq!(paths.state_dir, "C:\\L\\yesterfile\\state");
    assert_eq!(
        AppPaths::from_directories(POSIX, &None, &None, &None),
        Err(Failure::ConfigDirectoryUnknown)
    );
    assert_eq!(
        AppPaths::from_directories(POSIX, &some("/c"), &None, &None),
        Err(Failure::DataDirectoryUnknown)
    );
}

#[test]
fn texts_in_order() {
    assert!(matches!(rank("a", "b"), Rank::Before));
    assert!(matches!(rank("a", "a"), Rank::Same));
    assert!(matches!(rank("ab", "a"), Rank::After));
    assert!(matches!(rank("a-b", "a/b"), Rank::Before));
    let list: Vec<String> = ["b", "a/c", "b", "", "a"].map(str::to_owned).to_vec();
    assert_eq!(sort_texts(&list), ["", "a", "a/c", "b"]);
}

#[test]
fn paths_in_order() {
    assert!(matches!(path_rank(POSIX, "/a/b", "/a-b"), Rank::Before));
    assert!(matches!(path_rank(POSIX, "/a", "/a/b"), Rank::Before));
    assert!(matches!(path_rank(POSIX, "/a//b/", "/a/b"), Rank::Same));
    assert!(matches!(path_rank(POSIX, "a", "/a"), Rank::After));
    let mut list = Vec::new();
    for path in ["/w/b", "/w-x", "/w/a", "/w//b", "/w"] {
        insert_path(POSIX, &mut list, path.to_owned());
    }
    assert_eq!(list, ["/w", "/w/a", "/w/b", "/w-x"]);
    let mut expected: Vec<std::path::PathBuf> = list.iter().map(std::path::PathBuf::from).collect();
    expected.sort();
    let found: Vec<std::path::PathBuf> = list.iter().map(std::path::PathBuf::from).collect();
    assert_eq!(found, expected);
}

#[test]
fn paths_behave_like_those_of_the_platform() {
    let samples = [
        "", "/", "a", "./a", "../a", "a/..", "a/.", "/a/b", "//a", "a//b/", "a/./b", ".", "..",
        "/a/b/c.txt", "x y/\u{e4}", "a\\b", ".git", "/.", "/..",
    ];
    for one in samples {
        let path = std::path::Path::new(one);
        assert_eq!(is_absolute(POSIX, one), path.is_absolute(), "{one}");
        assert_eq!(
            parent(POSIX, one).as_deref(),
            path.parent().and_then(|p| p.to_str()),
            "{one}"
        );
        assert_eq!(
            file_name(POSIX, one).as_deref(),
            path.file_name().and_then(|p| p.to_str()),
            "{one}"
        );
        for other in samples {
            let second = std::path::Path::new(other);
            assert_eq!(
                join(POSIX, one, other),
                path.join(second).to_str().unwrap(),
                "{one} {other}"
            );
            assert_eq!(same_path(POSIX, one, other), path == second, "{one} {other}");
            assert_eq!(
                strip_prefix(POSIX, one, other).as_deref(),
                path.strip_prefix(second).ok().and_then(|p| p.to_str()),
                "{one} {other}"
            );
            let order = match path_rank(POSIX, one, other) {
                Rank::Before => -1,
                Rank::Same => 0,
                Rank::After => 1,
            };
            let expected = if path < second {
                -1
            } else if path == second {
                0
            } else {
                1
            };
            assert_eq!(order, expected, "{one} {other}");
        }
    }
}

#[test]
fn paths_of_the_history_lead_below_the_root() {
    for (style, root) in [(POSIX, "/work/demo"), (POSIX, "/"), (WINDOWS, "C:\\work"), (WINDOWS, "\\\\s\\x"),
        (WINDOWS, "\\\\?\\C:\\work"), (WINDOWS, "\\\\?\\UNC\\s\\x\\")] {
        for path in ["a", "src/main.rs", "a//b/./c/"] {
            assert!(validate_relative_path(style, path).is_ok());
            let place = join(style, root, path);
            let back = strip_prefix(style, &place, root).unwrap();
            assert!(same_path(style, &back, path), "{place}");
        }
        for path in ["..", "a/../..", "/etc", "./a", ""] {
            assert!(validate_relative_path(style, path).is_err(), "{path}");
        }
    }
}

#[test]
fn long_lists_are_sorted_as_sets() {
    let list: Vec<String> = (0..1000).map(|n| format!("{}", (n * 7919) % 503)).collect();
    let expected: std::collections::BTreeSet<String> = list.iter().cloned().collect();
    let sorted = sort_texts(&list);
    assert!(sorted.iter().eq(expected.iter()));
    assert_eq!(sort_texts(&sorted), sorted);
    for n in 0..600 {
        let text = format!("{n}");
        assert_eq!(holds_text(&sorted, &text), expected.contains(&text));
    }
}

#[test]
fn white_space_is_trimmed() {
    for sample in ["", " ", "a", " a b\n", "\t\u{a0}x\u{2003}", "\u{200b}x", "\u{85}y\r\n"] {
        assert!(same_text(&trim(sample), sample.trim()), "{sample:?}");
    }
}
