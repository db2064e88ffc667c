use folderwalk::paths::{display_root_name, output_path};
use std::path::Path;

#[test]
fn root_name_is_the_final_component() {
    assert_eq!(display_root_name("/home/user/project"), Some("project".to_string()));
    assert_eq!(display_root_name("project"), Some("project".to_string()));
    assert_eq!(display_root_name("a/b"), Some("b".to_string()));
    assert_eq!(display_root_name("./root"), Some("root".to_string()));
}

#[test]
fn root_name_skips_trailing_separators_and_dots() {
    assert_eq!(display_root_name("a/b/"), Some("b".to_string()));
    assert_eq!(display_root_name("a/b//"), Some("b".to_string()));
    assert_eq!(display_root_name("a/b/."), Some("b".to_string()));
    assert_eq!(display_root_name("a/b/./"), Some("b".to_string()));
    assert_eq!(display_root_name("a/./."), Some("a".to_string()));
}

#[test]
fn root_name_is_the_path_where_it_has_no_final_component() {
    assert_eq!(display_root_name("/"), Some("/".to_string()));
    assert_eq!(display_root_name("."), Some(".".to_string()));
    assert_eq!(display_root_name(".."), Some("..".to_string()));
    assert_eq!(display_root_name("a/.."), Some("a/..".to_string()));
    assert_eq!(display_root_name(""), Some("".to_string()));
    assert_eq!(display_root_name("./"), Some("./".to_string()));
    assert_eq!(display_root_name("//"), Some("//".to_string()));
}

#[test]
fn root_name_keeps_names_that_only_look_like_dots() {
    assert_eq!(display_root_name("..."), Some("...".to_string()));
    assert_eq!(display_root_name("a/.b"), Some(".b".to_string()));
    assert_eq!(display_root_name("a/..b"), Some("..b".to_string()));
    assert_eq!(display_root_name("a/b."), Some("b.".to_string()));
}

#[test]
fn root_name_agrees_with_the_file_name_of_a_path() {
    let paths = [
        "", "/", ".", "..", "a", "a/", "/a", "/a/", "a/b", "a//b", "a/./b", "a/b/.", "a/b/..",
        "./a", "../a", "a/../b", "/.", "/..", "./.", "./..", ".a", "a.", "/a/b/c.txt", "a/b/./.",
        "///a///", "a/.//./", ".../", "..a/",
    ];
    for p in paths.iter() {
        let expected = match Path::new(p).file_name() {
            Some(name) => name.to_string_lossy().to_string(),
            None => p.to_string(),
        };
        assert_eq!(display_root_name(p), Some(expected), "{:?}", p);
    }
}

#[test]
fn output_path_lies_directly_in_the_root() {
    assert_eq!(output_path("root"), "root/files.txt");
    assert_eq!(output_path("/home/user"), "/home/user/files.txt");
    assert_eq!(output_path("root/"), "root/files.txt");
    assert_eq!(output_path("/"), "/files.txt");
    assert_eq!(output_path(""), "files.txt");
    assert_eq!(output_path("."), "./files.txt");
}

#[test]
fn output_path_agrees_with_joining_paths() {
    let roots = ["", "/", ".", "a", "a/", "a/b", "/a/b/", "a//", "./"];
    for r in roots.iter() {
        let expected = Path::new(r).join("files.txt").to_string_lossy().to_string();
        assert_eq!(output_path(r), expected, "{:?}", r);
    }
}
