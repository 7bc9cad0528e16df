use superfusion::formatter::default_formatter;
use superfusion::index::{Index, IndexList, IndexMapping};
use superfusion::project::Pid;
use superfusion::Error;

fn formatter(pid: &Pid, filename: &str) -> String {
    format!("{}_{}", filename, pid.value())
}

#[test]
fn is_similar_index() {
    let foo = Index::new(Pid::new(0), "./foo/bar");
    let bar = Index::new(Pid::new(1), "./foo/bar");

    assert!(foo.is_similar(&bar))
}

#[test]
fn rename_index() {
    let index = Index::new(Pid::new(42), "./foo");
    let result = index.rename(formatter).unwrap();
    let expect = Index::new(Pid::new(42), "./foo_42");

    assert_eq!(result, expect);
}

#[test]
fn rename_index_2() {
    let index = Index::new(Pid::new(1), "./foo/bar.json");
    let result = index.rename(formatter).unwrap();
    let expect = Index::new(Pid::new(1), "./foo/bar_1.json");

    assert_eq!(result, expect);
}

#[test]
fn rename_index_3() {
    let index = Index::new(Pid::new(1000), "./bar/");
    let result = index.rename(formatter).unwrap();
    let expect = Index::new(Pid::new(1000), "./bar_1000");

    assert_eq!(result, expect);
}

#[test]
fn an_index_is_its_project_and_its_path() {
    let index = Index::new(Pid::new(3), "a/b.txt");
    assert_eq!(index.path(), "a/b.txt");
    assert_eq!(*index.pid(), Pid::new(3));
    assert_eq!(index.pid().value(), 3);
    assert_eq!(index.clone(), index);
    assert_ne!(index, Index::new(Pid::new(4), "a/b.txt"));
    assert_ne!(index, Index::new(Pid::new(3), "a/b"));
}

#[test]
fn similar_is_a_matter_of_the_path_alone() {
    let foo = Index::new(Pid::new(0), "./path/to/index");
    let bar = Index::new(Pid::new(1), "./path/to/index");
    let baz = Index::new(Pid::new(1), "./not/a/path/to/index");
    assert!(foo.is_similar(&bar));
    assert!(!foo.is_similar(&baz));
    assert!(foo.is_similar(&foo));
}

#[test]
fn with_pid_keeps_the_path() {
    let index = Index::new(Pid::new(0), "a/b.txt").with_pid(Pid::new(2));
    assert_eq!(index, Index::new(Pid::new(2), "a/b.txt"));
}

#[test]
fn prefix_puts_the_path_below_the_root() {
    let index = Index::new(Pid::new(0), "a/b.txt");
    assert_eq!(index.prefix("out"), "out/a/b.txt");
    assert_eq!(index.prefix("out/"), "out/a/b.txt");
    assert_eq!(index.prefix(""), "a/b.txt");
}

#[test]
fn an_index_is_shown_with_its_project() {
    assert_eq!(Index::new(Pid::new(12), "a/b.txt").display(), "a/b.txt (#12)");
    assert_eq!(Pid::new(0).display(), "#0");
    assert_eq!(Pid::new(305).display(), "#305");
}

#[test]
fn the_default_formatter_appends_the_project() {
    assert_eq!(default_formatter(&Pid::new(3), "foo"), "foo_3");
    assert_eq!(default_formatter(&Pid::new(0), ""), "_0");
    assert_eq!(default_formatter(&Pid::new(120), "a.b"), "a.b_120");
}

#[test]
fn rename_keeps_parent_and_extension() {
    let index = Index::new(Pid::new(7), "data/tags/tick.json");
    let renamed = index.rename(default_formatter).unwrap();
    assert_eq!(renamed, Index::new(Pid::new(7), "data/tags/tick_7.json"));

    let bare = Index::new(Pid::new(7), "tick.json");
    assert_eq!(bare.rename(default_formatter).unwrap().path(), "tick_7.json");
}

#[test]
fn rename_puts_the_new_stem_before_the_last_extension_only() {
    let index = Index::new(Pid::new(0), "pack/foo.tar.gz");
    assert_eq!(index.rename(default_formatter).unwrap().path(), "pack/foo.tar_0.gz");

    let hidden = Index::new(Pid::new(1), "pack/.config");
    assert_eq!(hidden.rename(default_formatter).unwrap().path(), "pack/.config_1");
}

#[test]
fn rename_to_takes_the_stem_as_it_is() {
    let index = Index::new(Pid::new(1), "./foo/bar.json");
    assert_eq!(index.rename_to("baz").unwrap(), Index::new(Pid::new(1), "./foo/baz.json"));
    assert_eq!(index.rename_to("").unwrap().path(), "./foo/.json");
}

#[test]
fn rename_fails_without_parent_or_file_name() {
    let rootless = Index::new(Pid::new(0), "");
    assert!(matches!(rootless.rename(formatter), Err(Error::Parent { path }) if path.is_empty()));
    assert!(matches!(rootless.rename_to("x"), Err(Error::Parent { path }) if path.is_empty()));

    let root = Index::new(Pid::new(0), "/");
    assert!(matches!(root.rename(formatter), Err(Error::Parent { path }) if path == "/"));

    let up = Index::new(Pid::new(0), "a/..");
    assert!(matches!(up.rename(formatter), Err(Error::NoFileName { path }) if path == "a/.."));
    assert!(matches!(up.rename_to("x"), Err(Error::NoFileName { path }) if path == "a/.."));
}

#[test]
fn files_of_different_projects_are_renamed_apart() {
    let paths = ["foo.json", "a/foo.json", "a/foo", "a/foo_1.json", "a/foo.1_2", "a/.foo", "a/foo_1"];
    let mut renamed = Vec::new();
    for (number, path) in paths.iter().enumerate() {
        for pid in [number, number + 10, number + 100] {
            let index = Index::new(Pid::new(pid), path);
            renamed.push(index.rename(default_formatter).unwrap());
        }
    }
    for (i, a) in renamed.iter().enumerate() {
        for b in renamed.iter().skip(i + 1) {
            assert_ne!(a.path(), b.path());
        }
    }
}

#[test]
fn a_list_keeps_each_index_once() {
    let a = Index::new(Pid::new(0), "x");
    let b = Index::new(Pid::new(1), "x");
    let list = IndexList::new(vec![a.clone(), b.clone(), a.clone(), b.clone(), a.clone()]);
    assert_eq!(list.len(), 2);
    assert_eq!(list.inner(), &vec![a.clone(), b.clone()]);
    assert!(!list.is_empty());
    assert!(IndexList::default().is_empty());
    assert_eq!(list.iter().cloned().collect::<Vec<_>>(), vec![a, b]);
}

#[test]
fn add_puts_an_index_once() {
    let a = Index::new(Pid::new(0), "x");
    let mut list = IndexList::default();
    assert!(list.add(a.clone()));
    assert!(!list.add(a.clone()));
    assert!(list.add(Index::new(Pid::new(0), "y")));
    assert_eq!(list.len(), 2);
    assert!(list.contains(&a));
    assert!(!list.contains(&Index::new(Pid::new(1), "x")));
    assert_eq!(list.clone().inner(), list.inner());
}

#[test]
fn get_different_pid_finds_the_collision() {
    let alpha = Pid::new(0);
    let beta = Pid::new(1);

    let foo = Index::new(alpha, "example/path");
    let bar = Index::new(beta, "example/path");

    let mut list = IndexList::default();
    list.add(foo.clone());

    assert_eq!(list.get_different_pid(&foo), None);
    assert_eq!(list.get_different_pid(&bar), Some(&Index::new(alpha, "example/path")));
}

#[test]
fn get_finds_by_path() {
    let alpha = Pid::new(0);
    let beta = Pid::new(1);

    let foo = Index::new(alpha, "example/path");
    let bar = Index::new(beta, "example/path");

    let mut list = IndexList::default();
    list.add(foo);

    assert_eq!(list.get(&bar), Some(&Index::new(alpha, "example/path")));
    assert_eq!(list.get(&Index::new(alpha, "other/path")), None);
}

#[test]
fn lookups_answer_with_the_first_that_fits() {
    let list = IndexList::new(vec![
        Index::new(Pid::new(2), "x"),
        Index::new(Pid::new(0), "y"),
        Index::new(Pid::new(0), "x"),
        Index::new(Pid::new(1), "x"),
    ]);
    let query = Index::new(Pid::new(2), "x");
    assert_eq!(list.get(&query), Some(&Index::new(Pid::new(2), "x")));
    assert_eq!(list.get_different_pid(&query), Some(&Index::new(Pid::new(0), "x")));
    assert_eq!(list.get_exact(&query), Some(&Index::new(Pid::new(2), "x")));
    assert_eq!(list.get_exact(&Index::new(Pid::new(3), "x")), None);
    assert_eq!(list.get_different_pid(&Index::new(Pid::new(0), "y")), None);
}

#[test]
fn a_mapping_answers_with_the_later_pair() {
    let from = Index::new(Pid::new(0), "a");
    let mapping = IndexMapping::new(vec![
        (from.clone(), Index::new(Pid::new(2), "a_0")),
        (Index::new(Pid::new(1), "a"), Index::new(Pid::new(2), "a_1")),
        (from.clone(), Index::new(Pid::new(2), "a_00")),
    ]);
    assert_eq!(mapping.get(&from), Some(&Index::new(Pid::new(2), "a_00")));
    assert_eq!(mapping.get(&Index::new(Pid::new(1), "a")), Some(&Index::new(Pid::new(2), "a_1")));
    assert_eq!(mapping.get(&Index::new(Pid::new(2), "a")), None);
    assert_eq!(mapping.image(&from), Index::new(Pid::new(2), "a_00"));
    assert_eq!(mapping.image(&Index::new(Pid::new(5), "b")), Index::new(Pid::new(5), "b"));
    assert_eq!(IndexMapping::default().get(&from), None);
}
