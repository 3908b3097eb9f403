use desktop_scout::sorted::{insert_path, sorted_paths};
use desktop_scout::text::chars_less;
use std::path::PathBuf;

fn chars(s: &str) -> Vec<char> {
    s.chars().collect()
}

fn strings(items: &[&str]) -> Vec<String> {
    items.iter().map(|s| s.to_string()).collect()
}

/// What sorting and deduplicating the same items as `PathBuf` values gives.
fn by_path_buf(items: &[&str]) -> Vec<String> {
    let mut paths: Vec<PathBuf> = items.iter().map(PathBuf::from).collect();
    paths.sort();
    paths.dedup();
    paths.iter().map(|p| p.to_str().unwrap().to_string()).collect()
}

#[test]
fn order_is_lexicographic_by_character() {
    assert!(chars_less(&chars("a"), &chars("b")));
    assert!(chars_less(&chars(""), &chars("a")));
    assert!(chars_less(&chars("ab"), &chars("abc")));
    assert!(chars_less(&chars("a-b"), &chars("a/b")));
    assert!(!chars_less(&chars("abc"), &chars("ab")));
    assert!(!chars_less(&chars("a"), &chars("a")));
    assert!(!chars_less(&chars(""), &chars("")));
    assert!(!chars_less(&chars("b"), &chars("a")));
}

#[test]
fn order_agrees_with_string_order() {
    let samples = ["", "a", "ab", "b", "/usr", "/usr/share", "/usr-x", "é", "z", "Z", "~", "\u{10000}", "\u{ffff}"];
    for a in samples {
        for b in samples {
            assert_eq!(chars_less(&chars(a), &chars(b)), a < b, "{:?} {:?}", a, b);
        }
    }
}

#[test]
fn insertion_keeps_the_list_in_path_order() {
    let mut v = strings(&["/b", "/d"]);
    assert!(insert_path(&mut v, "/c".to_string()));
    assert_eq!(v, strings(&["/b", "/c", "/d"]));
    assert!(insert_path(&mut v, "/a".to_string()));
    assert_eq!(v, strings(&["/a", "/b", "/c", "/d"]));
    assert!(insert_path(&mut v, "/e".to_string()));
    assert_eq!(v, strings(&["/a", "/b", "/c", "/d", "/e"]));
    assert!(insert_path(&mut v, "/b/x".to_string()));
    assert!(insert_path(&mut v, "/b-x".to_string()));
    assert_eq!(v, strings(&["/a", "/b", "/b/x", "/b-x", "/c", "/d", "/e"]));
}

#[test]
fn insertion_of_a_known_path_changes_nothing() {
    let mut v = strings(&["/a", "/b", "/c"]);
    assert!(!insert_path(&mut v, "/b".to_string()));
    assert!(!insert_path(&mut v, "/b/".to_string()));
    assert!(!insert_path(&mut v, "//b/.".to_string()));
    assert!(!insert_path(&mut v, "/./c".to_string()));
    assert_eq!(v, strings(&["/a", "/b", "/c"]));
}

#[test]
fn sorting_goes_by_components() {
    assert_eq!(sorted_paths(strings(&["/d/a-.desktop", "/d/a/b.desktop"])), strings(&["/d/a/b.desktop", "/d/a-.desktop"]));
    assert_eq!(sorted_paths(strings(&["/a-b", "/a/b"])), strings(&["/a/b", "/a-b"]));
    assert_eq!(sorted_paths(strings(&["b", "/b", "", "a", "..", ".", "./a"])), strings(&["", "/b", ".", "./a", "..", "a", "b"]));
}

#[test]
fn sorting_keeps_the_first_spelling_of_each_path() {
    let v = sorted_paths(strings(&["/r/./x.desktop", "/b", "/r/x.desktop", "/b/", "/a", "/r//x.desktop"]));
    assert_eq!(v, strings(&["/a", "/b", "/r/./x.desktop"]));
    let v = sorted_paths(strings(&["/b", "/a", "/b", "/c/d", "/a", "/c"]));
    assert_eq!(v, strings(&["/a", "/b", "/c", "/c/d"]));
    assert_eq!(sorted_paths(Vec::new()), Vec::<String>::new());
}

#[test]
fn sorting_agrees_with_the_standard_library() {
    let lists: [&[&str]; 6] = [
        &["/d/a-.desktop", "/d/a/b.desktop", "/d/a.desktop", "/d/a", "/d"],
        &["/r/./x.desktop", "/r/x.desktop", "/r//x.desktop", "/r/x.desktop/"],
        &["b", "/b", "", "a", "..", ".", "./a", "a/..", "a/.", "../a", "/", "//", "/."],
        &["/usr/share/applications", "/usr/local/share/applications", "/usr/share/applications/", "/opt/apps"],
        &["é", "e", "z", "/é/a", "/e/a", "/é-", "\u{10000}", "\u{ffff}"],
        &[],
    ];
    for items in lists {
        assert_eq!(sorted_paths(strings(items)), by_path_buf(items), "{:?}", items);
    }
}

#[test]
fn sorted_output_is_strictly_increasing_by_path() {
    let v = sorted_paths(strings(&["q", "b", "q/", "a", "zz", "z", "./b", "b/.", ""]));
    for i in 1..v.len() {
        assert!(PathBuf::from(&v[i - 1]) < PathBuf::from(&v[i]));
    }
    assert_eq!(v, by_path_buf(&["q", "b", "q/", "a", "zz", "z", "./b", "b/.", ""]));
}
