use std::collections::HashMap;
use superfusion::exporter::{Action, Event, Exporter, State};
use superfusion::file::{File, Relation};
use superfusion::formatter::default_formatter;
use superfusion::index::{Index, IndexList, IndexMapping};
use superfusion::logger::{log_conflicted, Event as Told, History, Logger, Silent};
use superfusion::order::{key_less, place};
use superfusion::project::{Pid, Project, Strategy};
use superfusion::timeline::Timeline;
use superfusion::workspace::{indexes, preview, project_paths, resolve, resolve_with, Workspace};
use superfusion::Error;

/// A file that is nothing but its bytes.
#[derive(Debug, Clone, PartialEq)]
struct Blob(Vec<u8>);

impl File for Blob {
    fn relation(&self) -> Vec<Relation> {
        vec![]
    }

    fn data(self) -> Vec<u8> {
        self.0
    }

    fn modify_relation(self, _from: &Index, _to: &Index) -> Self {
        self
    }

    fn merge(self, other: Self) -> Result<Self, Error> {
        Ok(other)
    }
}

struct Tree {
    root: String,
    pid: usize,
    files: Vec<&'static str>,
}

impl Project for Tree {
    fn root(&self) -> &str {
        &self.root
    }

    fn pid(&self) -> Pid {
        Pid::new(self.pid)
    }

    fn indexes(&self) -> IndexList {
        IndexList::new(self.files.iter().map(|path| Index::new(Pid::new(self.pid), path)).collect())
    }
}

/// A workspace whose policy goes by the extension, and whose formatter puts
/// the project in front.
struct Pack(Vec<Tree>);

impl Workspace for Pack {
    type Project = Tree;
    type File = Blob;

    fn projects(&self) -> &[Tree] {
        &self.0
    }

    fn strategy(&self, index: &Index) -> Strategy {
        if index.path().ends_with(".json") {
            Strategy::Rename
        } else if index.path().ends_with(".txt") {
            Strategy::Merge
        } else {
            Strategy::Replace
        }
    }

    fn file(_path: &str, _pid: Pid) -> Option<Blob> {
        None
    }

    fn formatter(pid: &Pid, filename: &str) -> String {
        format!("p{}-{}", pid.value(), filename)
    }
}

fn at(pid: usize, path: &str) -> Index {
    Index::new(Pid::new(pid), path)
}

fn tree(root: &str, pid: usize, files: &[&'static str]) -> Tree {
    Tree { root: root.to_string(), pid, files: files.to_vec() }
}

fn pack() -> Pack {
    Pack(vec![
        tree("B", 1, &["z.txt", "a.json", "only-b", "shared"]),
        tree("A", 0, &["shared", "a.json", "z.txt", "only-a.json"]),
    ])
}

#[test]
fn the_plan_is_in_the_order_of_project_and_path() {
    let timeline = resolve(&pack());
    let plan: Vec<(Index, Strategy)> = timeline.strategy().clone();
    assert_eq!(
        plan,
        vec![
            (at(0, "a.json"), Strategy::Rename),
            (at(0, "only-a.json"), Strategy::Replace),
            (at(0, "shared"), Strategy::Replace),
            (at(0, "z.txt"), Strategy::Merge),
            (at(1, "a.json"), Strategy::Rename),
            (at(1, "only-b"), Strategy::Replace),
            (at(1, "shared"), Strategy::Replace),
            (at(1, "z.txt"), Strategy::Merge),
        ]
    );
}

#[test]
fn files_with_the_same_path_get_the_same_strategy() {
    let timeline = resolve(&pack());
    let plan = timeline.strategy();
    for (a, first) in plan.iter() {
        for (b, second) in plan.iter() {
            if a.is_similar(b) {
                assert_eq!(first, second);
            }
        }
    }
}

#[test]
fn the_same_policy_gives_the_same_strategy_in_another_run() {
    let first = resolve(&pack());
    let second = resolve(&Pack(vec![
        tree("C", 5, &["a.json", "z.txt"]),
        tree("D", 3, &["a.json", "z.txt", "more"]),
    ]));
    for (a, strategy) in first.strategy().iter() {
        for (b, other) in second.strategy().iter() {
            if a.is_similar(b) {
                assert_eq!(strategy, other);
            }
        }
    }
}

#[test]
fn the_observer_is_told_of_each_file_once() {
    let mut history = History::new();
    resolve_with(&pack(), &mut history);
    let told = history.recorded();
    assert_eq!(told.len(), 8);
    assert!(matches!(&told[0], Told::Merge(c, i) if *c == at(0, "z.txt") && *i == at(1, "z.txt")));
    assert!(matches!(&told[1], Told::Rename(c, i) if *c == at(0, "a.json") && *i == at(1, "a.json")));
    assert!(matches!(&told[2], Told::Add(i) if *i == at(1, "only-b")));
    assert!(matches!(&told[3], Told::Replace(c, i) if *c == at(0, "shared") && *i == at(1, "shared")));
    assert!(matches!(&told[4], Told::Replace(c, i) if *c == at(1, "shared") && *i == at(0, "shared")));
    assert!(matches!(&told[5], Told::Rename(c, i) if *c == at(1, "a.json") && *i == at(0, "a.json")));
    assert!(matches!(&told[6], Told::Merge(c, i) if *c == at(1, "z.txt") && *i == at(0, "z.txt")));
    assert!(matches!(&told[7], Told::Add(i) if *i == at(0, "only-a.json")));
}

#[test]
fn a_path_of_two_projects_is_never_added_and_a_path_of_one_always() {
    let pack = pack();
    let mut history = History::new();
    resolve_with(&pack, &mut history);
    let all = indexes(&pack);
    for event in history.recorded() {
        let (index, added) = match event {
            Told::Add(index) => (index, true),
            Told::Replace(_, index) | Told::Merge(_, index) | Told::Rename(_, index) => {
                (index, false)
            }
        };
        let shared = all.iter().any(|other| other.is_similar(index) && other.pid() != index.pid());
        assert_eq!(added, !shared);
    }
}

#[test]
fn a_file_listed_twice_is_planned_once() {
    let pack = Pack(vec![tree("A", 0, &["x", "x"]), tree("A2", 0, &["x"])]);
    let mut history = History::new();
    let timeline = resolve_with(&pack, &mut history);
    assert_eq!(timeline.strategy(), &vec![(at(0, "x"), Strategy::Replace)]);
    assert_eq!(history.recorded().len(), 1);
    assert_eq!(preview(&pack).inner(), &vec![at(0, "x")]);
    assert_eq!(indexes(&pack), vec![at(0, "x"), at(0, "x")]);
    // two projects under one identifier count once, and the later root stands
    assert_eq!(timeline.output_id(), Pid::new(1));
    assert_eq!(timeline.projects().get(&0), Some(&"A2".to_string()));
}

#[test]
fn the_output_counts_as_the_project_after_the_last() {
    let timeline = resolve(&pack());
    assert_eq!(timeline.output_id(), Pid::new(2));
    assert_eq!(timeline.output_id().value(), 2);
    let roots = project_paths(&pack());
    assert_eq!(roots.len(), 2);
    assert_eq!(roots.get(&0), Some(&"A".to_string()));
    assert_eq!(roots.get(&1), Some(&"B".to_string()));
    assert_eq!(timeline.projects(), &roots);
    assert_eq!(resolve(&Pack(vec![])).output_id(), Pid::new(0));
}

#[test]
fn a_plan_made_by_hand_is_put_in_order() {
    let timeline: Timeline<Pack> = Timeline::new(
        vec![
            (at(1, "b"), Strategy::Merge),
            (at(0, "b"), Strategy::Rename),
            (at(1, "a"), Strategy::Replace),
            (at(0, "b"), Strategy::Merge),
        ],
        HashMap::new(),
    );
    assert_eq!(
        timeline.strategy(),
        &vec![
            (at(0, "b"), Strategy::Merge),
            (at(1, "a"), Strategy::Replace),
            (at(1, "b"), Strategy::Merge)
        ]
    );
}

#[test]
fn place_keeps_the_order_and_replaces_what_is_there() {
    let mut plan = Vec::new();
    place(&mut plan, at(1, "a"), Strategy::Merge);
    place(&mut plan, at(0, "b"), Strategy::Merge);
    place(&mut plan, at(0, "a"), Strategy::Rename);
    place(&mut plan, at(0, "b"), Strategy::Replace);
    assert_eq!(
        plan,
        vec![
            (at(0, "a"), Strategy::Rename),
            (at(0, "b"), Strategy::Replace),
            (at(1, "a"), Strategy::Merge)
        ]
    );
    assert!(key_less(&at(0, "z"), &at(1, "a")));
    assert!(key_less(&at(1, "a"), &at(1, "b")));
    assert!(!key_less(&at(1, "a"), &at(1, "a")));
    assert!(!key_less(&at(2, "a"), &at(1, "b")));
}

#[test]
fn the_mapping_sends_each_file_to_the_output() {
    let timeline = resolve(&pack());
    let mapping = timeline.mapping().unwrap();
    assert_eq!(mapping.get(&at(0, "a.json")), Some(&at(2, "p0-a.json")));
    assert_eq!(mapping.get(&at(1, "a.json")), Some(&at(2, "p1-a.json")));
    assert_eq!(mapping.get(&at(0, "only-a.json")), Some(&at(2, "only-a.json")));
    assert_eq!(mapping.get(&at(0, "z.txt")), Some(&at(2, "z.txt")));
    assert_eq!(mapping.get(&at(1, "z.txt")), Some(&at(2, "z.txt")));
    assert_eq!(mapping.get(&at(1, "shared")), Some(&at(2, "shared")));
    assert_eq!(mapping.get(&at(2, "shared")), None);
}

#[test]
fn the_exporter_asks_below_the_roots_and_writes_below_its_own() {
    let exporter = resolve(&pack()).export_to("out").unwrap();
    assert_eq!(exporter.len(), 8);
    assert_eq!(exporter.path(&at(2, "x/y")), "out/x/y");
    assert_eq!(exporter.index(&at(1, "a.json")), Some(&at(2, "p1-a.json")));
    assert_eq!(exporter.index(&at(2, "a.json")), None);

    let (state, action) = exporter.advance(State::start(), Event::Ready).unwrap();
    assert!(matches!(action, Action::Load { ref path, pid } if path == "A/a.json" && pid == Pid::new(0)));
    let (state, action) = exporter.advance(state, Event::Loaded(Some(Blob(vec![1, 2])))).unwrap();
    assert!(matches!(
        action,
        Action::Write { ref path, ref dir, ref content }
            if path == "out/p0-a.json" && dir.as_deref() == Some("out") && content == &vec![1, 2]
    ));
    let (state, action) = exporter.advance(state, Event::Ready).unwrap();
    assert_eq!(state.cursor, 1);
    assert!(matches!(action, Action::Load { ref path, .. } if path == "A/only-a.json"));
    let (state, action) = exporter.advance(state, Event::Loaded(None)).unwrap();
    assert_eq!(state.cursor, 2);
    assert!(matches!(action, Action::Load { ref path, .. } if path == "A/shared"));
}

#[test]
fn a_file_of_a_project_without_root_is_passed_over() {
    let plan = vec![
        (at(0, "a"), Strategy::Replace),
        (at(7, "b"), Strategy::Replace),
        (at(1, "c"), Strategy::Replace),
    ];
    let mut roots = HashMap::new();
    roots.insert(0, "A".to_string());
    roots.insert(1, "B".to_string());
    let exporter: Exporter<Pack> =
        Exporter::new("out".to_string(), Pid::new(2), roots, IndexMapping::default(), plan);
    let (state, action) = exporter.advance(State::start(), Event::Ready).unwrap();
    assert!(matches!(action, Action::Load { ref path, .. } if path == "A/a"));
    let (state, action) = exporter.advance(state, Event::Loaded(None)).unwrap();
    assert_eq!(state.cursor, 2);
    assert!(matches!(action, Action::Load { ref path, pid } if path == "B/c" && pid == Pid::new(1)));
    // without a mapping the file goes where its own index says
    let (state, action) = exporter.advance(state, Event::Loaded(Some(Blob(vec![9])))).unwrap();
    assert!(matches!(action, Action::Write { ref path, .. } if path == "out/c"));
    let (state, action) = exporter.advance(state, Event::Ready).unwrap();
    assert!(matches!(action, Action::Done));
    assert_eq!(state.cursor, 3);
}

#[test]
fn log_conflicted_picks_the_method_of_the_strategy() {
    let mut history = History::new();
    log_conflicted(&mut history, Strategy::Replace, &at(0, "a"), &at(1, "a"));
    log_conflicted(&mut history, Strategy::Merge, &at(0, "b"), &at(1, "b"));
    log_conflicted(&mut history, Strategy::Rename, &at(0, "c"), &at(1, "c"));
    history.add(&at(0, "d"));
    let told = history.recorded();
    assert!(matches!(&told[0], Told::Replace(c, i) if *c == at(0, "a") && *i == at(1, "a")));
    assert!(matches!(&told[1], Told::Merge(c, i) if *c == at(0, "b") && *i == at(1, "b")));
    assert!(matches!(&told[2], Told::Rename(c, i) if *c == at(0, "c") && *i == at(1, "c")));
    assert!(matches!(&told[3], Told::Add(i) if *i == at(0, "d")));

    let mut silent = Silent::new();
    log_conflicted(&mut silent, Strategy::Merge, &at(0, "b"), &at(1, "b"));
    silent.add(&at(0, "d"));
}

#[test]
fn each_error_keeps_what_it_is_made_of() {
    let io = || std::io::Error::new(std::io::ErrorKind::Other, "disk full");
    assert!(matches!(
        Error::write("out/a".to_string(), io()),
        Error::Write { path, source } if path == "out/a" && source.to_string() == "disk full"
    ));
    assert!(matches!(
        Error::dir_all("out".to_string(), io()),
        Error::CreateDirAll { path, source } if path == "out" && source.to_string() == "disk full"
    ));
    assert!(matches!(Error::parent("/".to_string()), Error::Parent { path } if path == "/"));
    assert!(matches!(Error::filename("..".to_string()), Error::NoFileName { path } if path == ".."));
    assert!(matches!(Error::custom("no".to_string()), Error::Custom(message) if message == "no"));
}

#[test]
fn the_default_formatter_is_there_for_a_workspace_to_use() {
    assert_eq!(default_formatter(&Pid::new(1), "lib"), "lib_1");
    assert_eq!(Pack::formatter(&Pid::new(1), "lib"), "p1-lib");
}

#[test]
fn an_exporter_can_be_given_its_mapping() {
    let mapping = IndexMapping::new(vec![(at(0, "z.txt"), at(2, "elsewhere/z.txt"))]);
    let pack = Pack(vec![tree("A", 0, &["z.txt"]), tree("B", 1, &["z.txt"])]);
    let exporter = resolve(&pack).exporter("out", mapping);
    let (state, _) = exporter.advance(State::start(), Event::Ready).unwrap();
    let (state, ask) = exporter.advance(state, Event::Loaded(Some(Blob(vec![1])))).unwrap();
    // what is there already is looked for where the file itself would stand
    assert!(matches!(ask, Action::Load { ref path, pid } if path == "out/z.txt" && pid == Pid::new(2)));
    let (state, write) = exporter.advance(state, Event::Loaded(Some(Blob(vec![0])))).unwrap();
    // the newcomer is merged into it, and with this file type the newer stays
    assert!(matches!(
        write,
        Action::Write { ref path, ref dir, ref content }
            if path == "out/elsewhere/z.txt" && dir.as_deref() == Some("out/elsewhere") && content == &vec![1]
    ));
    assert_eq!(state.cursor, 1);
}
