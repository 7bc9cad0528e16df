use std::path::Path;
use superfusion::fs::{
    extension, extension_in, file_stem, join, parent, prepare_parent, stem,
};
use superfusion::Error;

const PATHS: [&str; 22] = [
    "",
    "/",
    ".",
    "..",
    "a",
    "a/",
    "a/b",
    "a//b/",
    "a/./b",
    "a/b/.",
    "./a",
    "./bar/",
    "../a",
    "a/..",
    "/a",
    "/a/b.txt",
    "a/b.tar.gz",
    "a/.hidden",
    "a/.hidden.txt",
    "a/b.",
    "données/été.json",
    "a b/c d.e f",
];

#[test]
fn parent_is_what_the_path_module_says() {
    for path in PATHS {
        let expected = Path::new(path).parent().map(|p| p.to_str().unwrap().to_string());
        assert_eq!(parent(path).ok(), expected, "parent of {:?}", path);
        assert_eq!(prepare_parent(path), expected, "directory for {:?}", path);
    }
}

#[test]
fn parent_of_some_paths() {
    assert_eq!(parent("a/b").unwrap(), "a");
    assert_eq!(parent("a").unwrap(), "");
    assert_eq!(parent("./bar/").unwrap(), ".");
    assert_eq!(parent("/a").unwrap(), "/");
}

#[test]
fn a_path_without_parent_is_named_in_the_error() {
    assert!(matches!(parent(""), Err(Error::Parent { path }) if path.is_empty()));
    assert!(matches!(parent("/"), Err(Error::Parent { path }) if path == "/"));
}

#[test]
fn file_stem_is_what_the_path_module_says() {
    for path in PATHS {
        let expected = Path::new(path).file_stem().map(|s| s.to_str().unwrap().to_string());
        assert_eq!(file_stem(path).ok(), expected, "stem of {:?}", path);
    }
}

#[test]
fn file_stem_of_some_paths() {
    assert_eq!(file_stem("a/b.txt").unwrap(), "b");
    assert_eq!(file_stem("a/b.tar.gz").unwrap(), "b.tar");
    assert_eq!(file_stem("a/.hidden").unwrap(), ".hidden");
    assert_eq!(file_stem("a/b.").unwrap(), "b");
    assert_eq!(file_stem("./bar/").unwrap(), "bar");
}

#[test]
fn a_path_without_file_name_is_named_in_the_error() {
    assert!(matches!(file_stem("a/.."), Err(Error::NoFileName { path }) if path == "a/.."));
    assert!(matches!(file_stem("/"), Err(Error::NoFileName { path }) if path == "/"));
    assert!(matches!(file_stem(""), Err(Error::NoFileName { path }) if path.is_empty()));
}

#[test]
fn extension_is_what_the_path_module_says() {
    for path in PATHS {
        let expected = Path::new(path).extension().map(|s| s.to_str().unwrap().to_string());
        assert_eq!(extension(path), expected, "extension of {:?}", path);
    }
}

#[test]
fn extension_of_some_paths() {
    assert_eq!(extension("a/b.txt"), Some("txt".to_string()));
    assert_eq!(extension("a/b.tar.gz"), Some("gz".to_string()));
    assert_eq!(extension("a/.hidden"), None);
    assert_eq!(extension("a/b."), Some(String::new()));
    assert_eq!(extension("a/b"), None);
    assert_eq!(extension("a/.."), None);
}

#[test]
fn stem_and_extension_of_a_name() {
    assert_eq!(stem("bar.json"), "bar");
    assert_eq!(extension_in("bar.json"), Some("json".to_string()));
    assert_eq!(stem("bar"), "bar");
    assert_eq!(extension_in("bar"), None);
    assert_eq!(stem(".bar"), ".bar");
    assert_eq!(extension_in(".bar"), None);
    assert_eq!(stem("été.tar.gz"), "été.tar");
    assert_eq!(extension_in("été.tar.gz"), Some("gz".to_string()));
    assert_eq!(stem(""), "");
    assert_eq!(extension_in(""), None);
}

#[test]
fn join_is_what_the_path_module_says() {
    for base in PATHS {
        for rel in PATHS {
            let expected = Path::new(base).join(rel);
            assert_eq!(join(base, rel), expected.to_str().unwrap(), "{:?} / {:?}", base, rel);
        }
    }
}

#[test]
fn join_of_some_paths() {
    assert_eq!(join("out", "a/b.txt"), "out/a/b.txt");
    assert_eq!(join("out/", "a"), "out/a");
    assert_eq!(join("", "a"), "a");
    assert_eq!(join("out", "/a"), "/a");
    assert_eq!(join("out", ""), "out/");
    assert_eq!(join(".", "foo_42"), "./foo_42");
}
