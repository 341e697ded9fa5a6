use std::collections::BTreeMap;

use cyborg::process::{Action, Event, Info, Kind, Outcome, Place, Presence, Problem, Processor};
use cyborg::Args;

/// A small in-memory filesystem: each path is a file with its contents, or
/// a directory.
#[derive(Clone, Debug, PartialEq)]
enum Node {
    File(String),
    Dir,
}

struct Fs {
    nodes: BTreeMap<String, Node>,
    created: Vec<String>,
    transfers: Vec<(String, String)>,
}

fn parent_of(path: &str) -> Option<String> {
    path.rfind('/').map(|i| path[..i].to_string())
}

fn name_of(path: &str) -> String {
    match path.rfind('/') {
        Some(i) => path[i + 1..].to_string(),
        None => path.to_string(),
    }
}

fn place_path(p: &Place) -> String {
    let mut s = p.base.clone();
    if let Some(series) = &p.series {
        s = format!("{}/{}", s, series);
    }
    if let Some(file) = &p.file {
        s = format!("{}/{}", s, file);
    }
    s
}

impl Fs {
    fn new(entries: &[(&str, Option<&str>)]) -> Fs {
        let mut nodes = BTreeMap::new();
        for (path, contents) in entries {
            let node = match contents {
                Some(c) => Node::File(c.to_string()),
                None => Node::Dir,
            };
            nodes.insert(path.to_string(), node);
        }
        Fs { nodes, created: vec![], transfers: vec![] }
    }

    fn answer(&mut self, action: &Action) -> Event {
        match action {
            Action::Inspect(path) => match self.nodes.get(path) {
                None => Event::Inspected(Err("not found".to_string())),
                Some(node) => Event::Inspected(Ok(Info {
                    kind: match node {
                        Node::File(_) => Kind::File,
                        Node::Dir => Kind::Dir,
                    },
                    name: Some(name_of(path)),
                    parent: parent_of(path),
                })),
            },
            Action::List(path) => {
                let prefix = format!("{}/", path);
                let children: Vec<Result<String, String>> = self
                    .nodes
                    .keys()
                    .filter(|k| k.starts_with(&prefix) && !k[prefix.len()..].contains('/'))
                    .map(|k| Ok(k.clone()))
                    .collect();
                Event::Listed(Ok(children))
            },
            Action::Probe(place) => match self.nodes.get(&place_path(place)) {
                None => Event::Probed(Presence::Missing),
                Some(Node::Dir) => Event::Probed(Presence::Dir),
                Some(Node::File(_)) => Event::Probed(Presence::NotDir),
            },
            Action::CreateDir(place) => {
                let path = place_path(place);
                self.created.push(path.clone());
                self.nodes.insert(path, Node::Dir);
                Event::Created(Ok(()))
            },
            Action::Transfer { from, to, moving } => {
                let to = place_path(to);
                let node = self.nodes.get(from).cloned().unwrap();
                if *moving {
                    self.nodes.remove(from);
                }
                self.nodes.insert(to.clone(), node);
                self.transfers.push((from.clone(), to));
                Event::Transferred(Ok(()))
            },
            Action::Finish(_) => Event::Start,
        }
    }
}

fn args(targets: &[&str], output: Option<&str>) -> Args {
    Args {
        targets: targets.iter().map(|t| t.to_string()).collect(),
        output: output.map(|o| o.to_string()),
        series: false,
        move_files: false,
        dry_run: false,
        exit: false,
        force: false,
        recursive: false,
        verbose: 0,
        quiet: false,
    }
}

/// Runs the processor against the filesystem until it finishes.
fn run(fs: &mut Fs, args: Args) -> (Processor, bool) {
    let mut p = Processor::with_args(args);
    let mut event = Event::Start;
    for _ in 0..1000 {
        let action = p.process(event);
        if let Action::Finish(r) = &action {
            return (p, r.is_ok());
        }
        event = fs.answer(&action);
    }
    panic!("the run did not finish");
}

fn contents(fs: &Fs, path: &str) -> Option<Node> {
    fs.nodes.get(path).cloned()
}

#[test]
fn continue_mode_moves_parseable_and_reports_unparseable() {
    let mut fs = Fs::new(&[
        ("src", None),
        ("src/Test 1.cbz", Some("one")),
        ("src/not a comic.txt", Some("two")),
        ("out", None),
    ]);
    let mut a = args(&["src"], Some("out"));
    a.move_files = true;
    let (p, ok) = run(&mut fs, a);
    assert!(ok);
    assert_eq!(contents(&fs, "out/Test 001.cbz"), Some(Node::File("one".into())));
    assert_eq!(contents(&fs, "src/Test 1.cbz"), None);
    assert_eq!(contents(&fs, "src/not a comic.txt"), Some(Node::File("two".into())));
    let failed: Vec<&str> = p
        .reports()
        .iter()
        .filter_map(|r| match &r.outcome {
            Outcome::Failed(f) => Some(f.path.as_str()),
            _ => None,
        })
        .collect();
    assert_eq!(failed, vec!["src/not a comic.txt"]);
}

#[test]
fn abort_mode_stops_at_first_failure() {
    let mut fs = Fs::new(&[
        ("src", None),
        ("src/a.txt", Some("bad")),
        ("src/b 1.cbz", Some("good")),
        ("out", None),
    ]);
    let mut a = args(&["src"], Some("out"));
    a.exit = true;
    let (p, ok) = run(&mut fs, a);
    assert!(!ok);
    assert!(fs.transfers.is_empty());
    assert_eq!(contents(&fs, "out/b 001.cbz"), None);
    let last = p.reports().last().unwrap();
    match &last.outcome {
        Outcome::Failed(f) => {
            assert_eq!(f.path, "src/a.txt");
            assert!(matches!(f.problem, Problem::Parse(_)));
        },
        other => panic!("unexpected outcome {:?}", other),
    }
}

#[test]
fn dry_run_touches_nothing_and_reports_the_same() {
    let entries = [("src", None), ("src/Test 001.cbz", Some("x"))];
    let mut live_fs = Fs::new(&entries);
    let mut dry_fs = Fs::new(&entries);
    let mut live = args(&["src"], Some("out"));
    live.series = true;
    live.move_files = true;
    live.force = true;
    let mut dry = args(&["src"], Some("out"));
    dry.series = true;
    dry.move_files = true;
    dry.force = true;
    dry.dry_run = true;
    let (lp, lok) = run(&mut live_fs, live);
    let (dp, dok) = run(&mut dry_fs, dry);
    assert!(lok && dok);
    assert!(dry_fs.created.is_empty());
    assert!(dry_fs.transfers.is_empty());
    assert_eq!(contents(&dry_fs, "out"), None);
    assert_eq!(contents(&dry_fs, "src/Test 001.cbz"), Some(Node::File("x".into())));
    assert_eq!(live_fs.created, vec!["out/Test".to_string()]);
    assert_eq!(contents(&live_fs, "out/Test/Test 001.cbz"), Some(Node::File("x".into())));
    assert_eq!(lp.reports().len(), dp.reports().len());
    for (l, d) in lp.reports().iter().zip(dp.reports().iter()) {
        assert_eq!(l.path, d.path);
        match (&l.outcome, &d.outcome) {
            (
                Outcome::Organised { to: lt, moved: lm, simulated: false, created: lc, overwrote: lo },
                Outcome::Organised { to: dt, moved: dm, simulated: true, created: dc, overwrote: dov },
            ) => {
                assert_eq!(place_path(lt), place_path(dt));
                assert_eq!((lm, lc, lo), (dm, dc, dov));
            },
            other => panic!("unexpected outcomes {:?}", other),
        }
    }
}

#[test]
fn no_force_keeps_existing_destination() {
    let mut fs = Fs::new(&[
        ("src", None),
        ("src/Test 001.cbz", Some("contents")),
        ("out", None),
        ("out/Test 001.cbz", Some("")),
    ]);
    let mut a = args(&["src"], Some("out"));
    a.move_files = true;
    let (p, ok) = run(&mut fs, a);
    assert!(ok);
    assert_eq!(contents(&fs, "out/Test 001.cbz"), Some(Node::File("".into())));
    assert_eq!(contents(&fs, "src/Test 001.cbz"), Some(Node::File("contents".into())));
    assert!(matches!(p.reports().last().unwrap().outcome, Outcome::Skipped(_)));
}

#[test]
fn force_overwrites_existing_destination() {
    let mut fs = Fs::new(&[
        ("src", None),
        ("src/Test 001.cbz", Some("contents")),
        ("out", None),
        ("out/Test 001.cbz", Some("")),
    ]);
    let mut a = args(&["src"], Some("out"));
    a.move_files = true;
    a.force = true;
    let (p, ok) = run(&mut fs, a);
    assert!(ok);
    assert_eq!(contents(&fs, "out/Test 001.cbz"), Some(Node::File("contents".into())));
    assert_eq!(contents(&fs, "src/Test 001.cbz"), None);
    assert!(matches!(
        p.reports().last().unwrap().outcome,
        Outcome::Organised { overwrote: true, .. }
    ));
}

#[test]
fn subdirectories_only_when_recursive() {
    let entries = [
        ("src", None),
        ("src/Test 001.cbz", Some("1")),
        ("src/sub", None),
        ("src/sub/Test 002.cbz", Some("2")),
        ("out", None),
    ];
    let mut flat = Fs::new(&entries);
    let (_, ok) = run(&mut flat, args(&["src"], Some("out")));
    assert!(ok);
    assert!(contents(&flat, "out/Test 001.cbz").is_some());
    assert!(contents(&flat, "out/Test 002.cbz").is_none());

    let mut deep = Fs::new(&entries);
    let mut a = args(&["src"], Some("out"));
    a.recursive = true;
    let (_, ok) = run(&mut deep, a);
    assert!(ok);
    assert!(contents(&deep, "out/Test 001.cbz").is_some());
    assert!(contents(&deep, "out/Test 002.cbz").is_some());
    assert!(contents(&deep, "src/sub/Test 002.cbz").is_some());
}

#[test]
fn output_that_is_a_file_fails_the_entry() {
    let mut fs = Fs::new(&[("src", None), ("src/Test 001.cbz", Some("c")), ("out", Some("c"))]);
    let mut a = args(&["src/Test 001.cbz"], Some("out"));
    a.exit = true;
    a.move_files = true;
    let (p, ok) = run(&mut fs, a);
    assert!(!ok);
    assert_eq!(contents(&fs, "out"), Some(Node::File("c".into())));
    assert!(contents(&fs, "src/Test 001.cbz").is_some());
    match &p.reports().last().unwrap().outcome {
        Outcome::Failed(f) => assert_eq!(f.problem, Problem::NotADirectory),
        other => panic!("unexpected outcome {:?}", other),
    }
}

#[test]
fn without_output_files_stay_beside_their_sources() {
    let mut fs = Fs::new(&[("src", None), ("src/Test #3.cbz", Some("c"))]);
    let (_, ok) = run(&mut fs, args(&["src/Test #3.cbz"], None));
    assert!(ok);
    assert!(contents(&fs, "src/Test 003.cbz").is_some());
    assert!(contents(&fs, "src/Test #3.cbz").is_some());
}

#[test]
fn missing_target_is_reported_and_run_goes_on() {
    let mut fs = Fs::new(&[("src", None), ("src/Test 001.cbz", Some("c")), ("out", None)]);
    let (p, ok) = run(&mut fs, args(&["nowhere", "src"], Some("out")));
    assert!(ok);
    assert!(contents(&fs, "out/Test 001.cbz").is_some());
    match &p.reports()[0].outcome {
        Outcome::Failed(f) => {
            assert_eq!(f.path, "nowhere");
            assert_eq!(f.problem, Problem::Stat);
        },
        other => panic!("unexpected outcome {:?}", other),
    }
}

#[test]
fn unreadable_entry_fails_in_order() {
    let mut p = Processor::with_args(args(&["src"], Some("out")));
    assert!(matches!(p.process(Event::Start), Action::Inspect(ref s) if s == "src"));
    let info = Info { kind: Kind::Dir, name: Some("src".into()), parent: None };
    assert!(matches!(p.process(Event::Inspected(Ok(info))), Action::List(_)));
    let entries = vec![Err("bad entry".to_string()), Ok("src/x".to_string())];
    let next = p.process(Event::Listed(Ok(entries)));
    assert!(matches!(next, Action::Inspect(ref s) if s == "src/x"));
    match &p.reports()[0].outcome {
        Outcome::Failed(f) => {
            assert_eq!(f.problem, Problem::ReadEntry);
            assert_eq!(f.detail.as_deref(), Some("bad entry"));
        },
        other => panic!("unexpected outcome {:?}", other),
    }
}

#[test]
fn answer_that_does_not_fit_repeats_the_action() {
    let mut p = Processor::with_args(args(&["a"], None));
    assert!(matches!(p.process(Event::Start), Action::Inspect(_)));
    assert!(matches!(p.process(Event::Probed(Presence::Dir)), Action::Inspect(ref s) if s == "a"));
    assert!(p.reports().is_empty());
}

fn file_info(name: Option<&str>, parent: Option<&str>) -> Info {
    Info { kind: Kind::File, name: name.map(String::from), parent: parent.map(String::from) }
}

fn last_problem(p: &Processor) -> Problem {
    match &p.reports().last().unwrap().outcome {
        Outcome::Failed(f) => f.problem,
        other => panic!("unexpected outcome {:?}", other),
    }
}

#[test]
fn each_failure_is_reported_with_its_problem() {
    // An unreadable directory.
    let mut p = Processor::with_args(args(&["d"], None));
    p.process(Event::Start);
    let info = Info { kind: Kind::Dir, name: Some("d".into()), parent: None };
    p.process(Event::Inspected(Ok(info)));
    let next = p.process(Event::Listed(Err("denied".into())));
    assert!(matches!(next, Action::Finish(Ok(()))));
    assert_eq!(last_problem(&p), Problem::ReadDir);

    // A file name that is not valid UTF-8.
    let mut p = Processor::with_args(args(&["f"], None));
    p.process(Event::Start);
    p.process(Event::Inspected(Ok(file_info(None, Some(".")))));
    assert_eq!(last_problem(&p), Problem::Name);

    // No output directory and no parent.
    let mut p = Processor::with_args(args(&["Test 001.cbz"], None));
    p.process(Event::Start);
    p.process(Event::Inspected(Ok(file_info(Some("Test 001.cbz"), None))));
    assert_eq!(last_problem(&p), Problem::NoParent);

    // The destination directory cannot be created.
    let mut p = Processor::with_args(args(&["in/Test 001.cbz"], Some("out")));
    p.process(Event::Start);
    let a = p.process(Event::Inspected(Ok(file_info(Some("Test 001.cbz"), Some("in")))));
    assert!(matches!(a, Action::Probe(_)));
    let a = p.process(Event::Probed(Presence::Missing));
    assert!(matches!(a, Action::CreateDir(ref d) if d.base == "out" && d.file.is_none()));
    let a = p.process(Event::Created(Err("read-only".into())));
    assert!(matches!(a, Action::Finish(Ok(()))));
    assert_eq!(last_problem(&p), Problem::CreateDir);

    // The copy fails.
    let mut p = Processor::with_args(args(&["in/Test 1.cbz"], Some("out")));
    p.process(Event::Start);
    p.process(Event::Inspected(Ok(file_info(Some("Test 1.cbz"), Some("in")))));
    p.process(Event::Probed(Presence::Dir));
    let a = p.process(Event::Probed(Presence::Missing));
    match &a {
        Action::Transfer { from, to, moving } => {
            assert_eq!(from, "in/Test 1.cbz");
            assert_eq!(to.base, "out");
            assert_eq!(to.file.as_deref(), Some("Test 001.cbz"));
            assert!(!moving);
        },
        other => panic!("unexpected action {:?}", other),
    }
    let a = p.process(Event::Transferred(Err("disk full".into())));
    assert!(matches!(a, Action::Finish(Ok(()))));
    assert_eq!(last_problem(&p), Problem::Transfer);
}

#[test]
fn special_entries_are_ignored() {
    let mut p = Processor::with_args(args(&["dev"], None));
    p.process(Event::Start);
    let info = Info { kind: Kind::Other, name: Some("dev".into()), parent: None };
    let a = p.process(Event::Inspected(Ok(info)));
    assert!(matches!(a, Action::Finish(Ok(()))));
    assert!(matches!(p.reports()[0].outcome, Outcome::Ignored));
}

#[test]
fn finished_run_stays_finished() {
    let mut p = Processor::with_args(args(&[], None));
    assert!(matches!(p.process(Event::Start), Action::Finish(Ok(()))));
    assert!(matches!(p.process(Event::Probed(Presence::Dir)), Action::Finish(Ok(()))));
    assert!(p.reports().is_empty());
}
