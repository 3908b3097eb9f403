use desktop_scout::paths::{
    component_before, file_name_of, has_desktop_extension, is_same_path, join_path, path_before,
    path_components, path_is_absolute,
};
use std::path::Path;

#[test]
fn join_puts_one_separator_between() {
    assert_eq!(join_path("/usr/bin", "ls"), "/usr/bin/ls");
    assert_eq!(join_path("/usr/bin/", "ls"), "/usr/bin/ls");
    assert_eq!(join_path("", "ls"), "ls");
    assert_eq!(join_path("/opt/app", "./run.sh"), "/opt/app/./run.sh");
    assert_eq!(join_path("/usr/bin", ""), "/usr/bin/");
}

#[test]
fn join_keeps_an_absolute_path() {
    assert_eq!(join_path("/opt/app", "/bin/sh"), "/bin/sh");
    assert_eq!(join_path("", "/"), "/");
}

#[test]
fn join_agrees_with_the_standard_library() {
    let bases = ["", "/", "/usr", "/usr/", "rel", "rel/", "a b", "/opt/app", "//x", "."];
    let rels = ["", "ls", "./run.sh", "../x", "/abs", "a/b/c", "/", "x/", "é.desktop"];
    for base in bases {
        for rel in rels {
            let expected = Path::new(base).join(rel);
            assert_eq!(Some(join_path(base, rel).as_str()), expected.to_str());
        }
    }
}

#[test]
fn absolute_paths_start_at_the_root() {
    assert!(path_is_absolute("/bin/sh"));
    assert!(path_is_absolute("/"));
    assert!(!path_is_absolute("bin/sh"));
    assert!(!path_is_absolute("./run.sh"));
    assert!(!path_is_absolute(""));
}

#[test]
fn file_name_is_what_follows_the_last_separator() {
    assert_eq!(file_name_of("/usr/bin/python3"), "python3");
    assert_eq!(file_name_of("python3"), "python3");
    assert_eq!(file_name_of("/usr/bin/"), "");
    assert_eq!(file_name_of(""), "");
    assert_eq!(file_name_of("a/b/c.d"), "c.d");
}

#[test]
fn file_name_agrees_with_the_standard_library_on_files() {
    for path in ["/usr/bin/python3", "sh", "a/b/c.d", "/x/y.desktop", "/opt/app/./run.sh"] {
        let expected = Path::new(path).file_name().and_then(|n| n.to_str());
        assert_eq!(Some(file_name_of(path).as_str()), expected);
    }
}

#[test]
fn descriptor_files_end_in_dot_desktop() {
    assert!(has_desktop_extension("/usr/share/applications/firefox.desktop"));
    assert!(has_desktop_extension("a.desktop"));
    assert!(has_desktop_extension("a.b.desktop"));
    assert!(has_desktop_extension("dir/..desktop"));
    assert!(!has_desktop_extension("/usr/share/applications/.desktop"));
    assert!(!has_desktop_extension(".desktop"));
    assert!(!has_desktop_extension("firefox.Desktop"));
    assert!(!has_desktop_extension("firefox.desktop.bak"));
    assert!(!has_desktop_extension("firefoxdesktop"));
    assert!(!has_desktop_extension("x.desktop/readme"));
    assert!(!has_desktop_extension(""));
}

#[test]
fn descriptor_extension_agrees_with_the_standard_library() {
    for path in [
        "a.desktop", ".desktop", "..desktop", "a.b.desktop", "desktop", "a.desktop.bak", "d/a.desktop",
        "d.desktop/a", "a.desktopx", "a.xdesktop", "é.desktop",
    ] {
        let expected = Path::new(path).extension().and_then(|e| e.to_str()) == Some("desktop");
        assert_eq!(has_desktop_extension(path), expected, "{}", path);
    }
}

#[test]
fn components_leave_out_what_names_nothing() {
    let c = |p: &str| path_components(p);
    assert_eq!(c("/opt/app/./run.sh"), vec!["opt", "app", "run.sh"]);
    assert_eq!(c("/opt/app/run.sh"), vec!["opt", "app", "run.sh"]);
    assert_eq!(c("a//b/"), vec!["a", "b"]);
    assert_eq!(c("./a/./b"), vec![".", "a", "b"]);
    assert_eq!(c("../a"), vec!["..", "a"]);
    assert_eq!(c("."), vec!["."]);
    assert_eq!(c("./."), vec!["."]);
    assert_eq!(c("/."), Vec::<String>::new());
    assert_eq!(c("/"), Vec::<String>::new());
    assert_eq!(c(""), Vec::<String>::new());
    assert_eq!(c(".a/b."), vec![".a", "b."]);
}

#[test]
fn the_same_path_may_be_spelled_differently() {
    assert!(is_same_path("/opt/app/./run.sh", "/opt/app/run.sh"));
    assert!(is_same_path("/a//x", "/a/x/"));
    assert!(is_same_path(&join_path("/opt/app", "./run.sh"), &join_path("/opt/app/", "run.sh")));
    assert!(!is_same_path("/a/x", "a/x"));
    assert!(!is_same_path("./x", "x"));
    assert!(!is_same_path("/a/x", "/a/y"));
    assert!(!is_same_path("/a/x", "/a/x/y"));
    assert!(!is_same_path("/a/../x", "/x"));
}

#[test]
fn same_path_agrees_with_the_standard_library() {
    let samples = [
        "", ".", "..", "/", "//", "/.", "./", "./.", "a", "./a", "a/", "a/.", "/a", "/a/", "//a", "/./a",
        "a/b", "a//b", "a/./b", "./a/b", "a/b/.", "a/../b", "/a/b", ".a", "a.", "/opt/app/./run.sh",
        "/opt/app/run.sh", "é/ü", "é/./ü",
    ];
    for a in samples {
        for b in samples {
            assert_eq!(is_same_path(a, b), Path::new(a) == Path::new(b), "{:?} {:?}", a, b);
        }
    }
}

#[test]
fn components_are_ordered_by_kind_and_then_by_name() {
    assert!(component_before(".", ".."));
    assert!(component_before("..", "a"));
    assert!(component_before(".", "a"));
    assert!(component_before("..", "!"));
    assert!(component_before("a", "a-b"));
    assert!(component_before("a", "b"));
    assert!(component_before("...", "a"));
    assert!(!component_before("a", ".."));
    assert!(!component_before("..", "."));
    assert!(!component_before("a", "a"));
    assert!(!component_before(".", "."));
    assert!(!component_before("b", "a"));
}

#[test]
fn paths_are_ordered_component_by_component() {
    assert!(path_before("/d/a/b.desktop", "/d/a-.desktop"));
    assert!(!path_before("/d/a-.desktop", "/d/a/b.desktop"));
    assert!(path_before("/a/b", "/a-b"));
    assert!(path_before("/a", "/a/b"));
    assert!(path_before("/", "/a"));
    assert!(path_before("/a", "a"));
    assert!(path_before("/z", "."));
    assert!(path_before("", "/"));
    assert!(path_before("", "a"));
    assert!(path_before("./a", "../a"));
    assert!(path_before("../a", "a"));
    assert!(!path_before("/a/./b", "/a/b"));
    assert!(!path_before("/a/b", "/a/./b"));
    assert!(!path_before("a", "/a"));
    assert!(!path_before("/", ""));
}

#[test]
fn path_order_agrees_with_the_standard_library() {
    let samples = [
        "", ".", "..", "/", "//", "/.", "./", "./.", "a", "./a", "../a", "a/", "a/.", "a/..", "/a", "/a/",
        "//a", "/./a", "/../a", "a/b", "a//b", "a/./b", "a-b", "a-", "./a/b", "a/b/.", "a/../b", "/a/b",
        "/a-b", ".a", "a.", "...", "/d/a-.desktop", "/d/a/b.desktop", "é/ü", "é/./ü", "e", "é", "\u{10000}",
        "\u{ffff}",
    ];
    for a in samples {
        for b in samples {
            assert_eq!(path_before(a, b), Path::new(a) < Path::new(b), "{:?} {:?}", a, b);
            assert_eq!(is_same_path(a, b), Path::new(a) == Path::new(b), "{:?} {:?}", a, b);
        }
    }
}
