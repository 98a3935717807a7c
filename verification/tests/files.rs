use command_runner::files::{delete_file, list_files, safe_name, FoundEntry};
use command_runner::order::{comes_before, sort_by_text};

fn found(name: &str, is_file: bool, size: u64) -> FoundEntry {
    FoundEntry { name: name.to_string(), is_file, size }
}

fn listed(entries: Vec<FoundEntry>) -> Vec<(String, u64)> {
    list_files(entries).into_iter().map(|f| (f.name, f.size)).collect()
}

fn names(entries: Vec<FoundEntry>) -> Vec<String> {
    list_files(entries).into_iter().map(|f| f.name).collect()
}

#[test]
fn bare_names_are_safe() {
    for name in ["a", "deploy.ps1", ".hidden", "a.b.c", "trailing.", "mit leerzeichen", "\u{e9}", "a.b."] {
        assert_eq!(safe_name(name), Ok(name));
    }
}

#[test]
fn names_that_lead_elsewhere_are_not_safe() {
    for name in ["", ".", "..", "...", "a..b", "a/b", "/", "\\", "a\\b", "../x", "..\\x", "x/..", "/etc", "a/", "C:evil.txt", "a:b", ":", "C:", "a.txt:"] {
        assert_eq!(safe_name(name), Err("invalid file name".to_string()), "{}", name);
    }
}

#[test]
fn a_safe_name_adds_one_component_to_its_folder() {
    let folder = std::path::Path::new("/base/files");
    for name in ["a", ".hidden", "a.b"] {
        let path = folder.join(safe_name(name).unwrap());
        assert_eq!(path.parent(), Some(folder));
        assert_eq!(path.components().count(), folder.components().count() + 1);
    }
}

#[test]
fn only_a_safe_name_is_deleted() {
    let path = delete_file(Ok("dir"), "a.txt".to_string()).unwrap();
    assert_eq!(path.dir, "dir");
    assert_eq!(path.name, "a.txt");
    assert_eq!(
        delete_file(Ok("dir"), "../a.txt".to_string()).err(),
        Some("invalid file name".to_string())
    );
    for name in ["C:evil.txt", "a:b", ":"] {
        assert_eq!(
            delete_file(Ok("dir"), name.to_string()).err(),
            Some("invalid file name".to_string())
        );
    }
}

#[test]
fn the_folder_fails_before_the_name_does() {
    let dir: Result<&str, String> = Err("no folder".to_string());
    assert_eq!(delete_file(dir, "..".to_string()).err(), Some("no folder".to_string()));
}

#[test]
fn files_are_listed_by_name_whatever_the_case() {
    let entries = vec![
        found("b.txt", true, 2),
        found("sub", false, 0),
        found("A.txt", true, 1),
        found("c", true, 3),
        found("B", true, 4),
    ];
    assert_eq!(
        listed(entries),
        vec![
            ("A.txt".to_string(), 1),
            ("B".to_string(), 4),
            ("b.txt".to_string(), 2),
            ("c".to_string(), 3),
        ]
    );
}

#[test]
fn names_that_differ_in_case_stay_as_found() {
    let entries = || vec![found("x", true, 1), found("X", true, 2), found("a", true, 3), found("x", true, 4)];
    assert_eq!(
        listed(entries()).into_iter().map(|f| f.1).collect::<Vec<u64>>(),
        vec![3, 1, 2, 4]
    );
    let mut reversed = entries();
    reversed.reverse();
    assert_eq!(
        listed(reversed).into_iter().map(|f| f.1).collect::<Vec<u64>>(),
        vec![3, 4, 2, 1]
    );
}

#[test]
fn lower_case_is_that_of_unicode() {
    let entries = vec![found("\u{df}b", true, 0), found("\u{c9}a", true, 0), found("\u{e9}", true, 0), found("z", true, 0)];
    assert_eq!(names(entries), vec!["z", "\u{df}b", "\u{e9}", "\u{c9}a"]);
}

#[test]
fn an_empty_folder_lists_nothing() {
    assert!(names(vec![]).is_empty());
    assert!(names(vec![found("sub", false, 0)]).is_empty());
}

#[test]
fn many_files_are_sorted_as_std_sorts_them() {
    let mut entries = Vec::new();
    let mut expected = Vec::new();
    let mut x: u32 = 12345;
    for i in 0..300 {
        x = x.wrapping_mul(1664525).wrapping_add(1013904223);
        let name = format!("{}{}", if x & 0x10000 == 0 { "N" } else { "n" }, (x >> 20) % 97);
        entries.push(found(&name, true, i));
        expected.push((name, i));
    }
    expected.sort_by(|a, b| a.0.to_lowercase().cmp(&b.0.to_lowercase()));
    assert_eq!(listed(entries), expected);
}

#[test]
fn texts_are_ordered_as_std_orders_them() {
    let texts = ["", "a", "A", "ab", "b", "\u{e9}", "\u{ffff}", "\u{10000}", "a\u{10000}", "zz"];
    for a in texts {
        for b in texts {
            assert_eq!(comes_before(a, b), a <= b, "{} {}", a, b);
        }
    }
}

#[test]
fn sorting_keeps_what_goes_with_a_text() {
    let list = vec![("b".to_string(), 1), ("a".to_string(), 2), ("b".to_string(), 3), ("".to_string(), 4)];
    let sorted: Vec<i32> = sort_by_text(list).into_iter().map(|p| p.1).collect();
    assert_eq!(sorted, vec![4, 2, 1, 3]);
}
