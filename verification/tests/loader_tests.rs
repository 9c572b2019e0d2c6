//! Loading runs against a small in-memory file system: each request of
//! the loader is answered from a map of paths.
use std::collections::HashMap;
use std::path::{Component, Path, PathBuf};

use fzftask::load_model::PathKind;
use fzftask::loader::{
    resolve_include, FileContents, LoadError, LoadEvent, LoadRequest, LoadStep, Taskfile,
};
use fzftask::taskdef::{Include, RawCmd, RawInclude, RawTask, RawTaskfile};

enum Node {
    Dir,
    File(Box<dyn Fn() -> FileContents>),
}

fn file(f: impl Fn() -> FileContents + 'static) -> Node {
    Node::File(Box::new(f))
}

struct Fs {
    nodes: HashMap<PathBuf, Node>,
    reads: Vec<PathBuf>,
}

fn normal(p: &Path) -> PathBuf {
    p.components().filter(|c| !matches!(c, Component::CurDir)).collect()
}

impl Fs {
    fn new(entries: Vec<(&str, Node)>) -> Fs {
        let mut nodes = HashMap::new();
        for (p, n) in entries {
            nodes.insert(normal(Path::new(p)), n);
        }
        Fs { nodes, reads: Vec::new() }
    }

    fn answer(&mut self, request: LoadRequest) -> LoadEvent {
        match request {
            LoadRequest::Probe { base, name } => {
                let joined = Path::new(&base).join(&name);
                let kind = match self.nodes.get(&normal(&joined)) {
                    Some(Node::Dir) => PathKind::Dir,
                    Some(Node::File(_)) => PathKind::File,
                    None => PathKind::Missing,
                };
                LoadEvent::Probed { path: joined.to_string_lossy().into_owned(), kind }
            }
            LoadRequest::Canonicalize { path } => LoadEvent::Canonical {
                path: normal(Path::new(&path)).to_string_lossy().into_owned(),
            },
            LoadRequest::Read { path } => {
                let p = Path::new(&path);
                self.reads.push(normal(p));
                let dir = p.parent().map(|d| d.to_string_lossy().into_owned());
                let contents = match self.nodes.get(&normal(p)) {
                    Some(Node::File(f)) => f(),
                    _ => FileContents::Unreadable("No such file or directory".into()),
                };
                LoadEvent::Read { dir, contents }
            }
        }
    }

    fn load(&mut self, dir: &str) -> Result<Taskfile, LoadError> {
        let mut step = Taskfile::load_from_dir(dir.to_string());
        loop {
            match step {
                LoadStep::Finished(r) => return r,
                LoadStep::Pending(loader, request) => {
                    let event = self.answer(request);
                    step = loader.step(event);
                }
            }
        }
    }
}

fn cmds(list: &[&str]) -> RawTask {
    RawTask::Cmds(list.iter().map(|c| RawCmd::Str(c.to_string())).collect())
}

fn full(aliases: &[&str], internal: bool, list: &[&str]) -> RawTask {
    RawTask::Full {
        desc: None,
        summary: None,
        cmds: list.iter().map(|c| RawCmd::Str(c.to_string())).collect(),
        vars: None,
        aliases: aliases.iter().map(|a| a.to_string()).collect(),
        internal,
    }
}

fn path_include(p: &str) -> RawInclude {
    RawInclude::Path(p.to_string())
}

fn detailed(taskfile: &str, optional: bool, internal: bool, flatten: bool, excludes: &[&str]) -> RawInclude {
    RawInclude::Detailed {
        taskfile: Some(taskfile.to_string()),
        dir: None,
        optional,
        internal,
        flatten,
        excludes: excludes.iter().map(|e| e.to_string()).collect(),
    }
}

fn doc(includes: Vec<(&str, RawInclude)>, tasks: Vec<(&str, RawTask)>) -> FileContents {
    FileContents::Parsed(RawTaskfile {
        version: Some("3".into()),
        includes: includes.into_iter().map(|(n, i)| (n.to_string(), i)).collect(),
        tasks: tasks.into_iter().map(|(n, t)| (n.to_string(), t)).collect(),
    })
}

fn names(tf: &Taskfile) -> Vec<&str> {
    tf.tasks.keys().map(|s| s.as_str()).collect()
}

#[test]
fn merges_includes_with_namespaced_tasks() {
    let mut fs = Fs::new(vec![
        ("root", Node::Dir),
        ("root/docs", Node::Dir),
        ("root/nested", Node::Dir),
        (
            "root/Taskfile.yml",
            file(|| {
                doc(
                    vec![
                        ("docs", path_include("./docs")),
                        ("sub", detailed("./nested/Taskfile.yml", false, false, false, &[])),
                    ],
                    vec![("build", cmds(&["cargo build"]))],
                )
            }),
        ),
        ("root/docs/Taskfile.yml", file(|| doc(vec![], vec![("serve", cmds(&["mkdocs serve"]))]))),
        (
            "root/nested/Taskfile.yml",
            file(|| {
                doc(vec![("inner", path_include("./inner.yml"))], vec![("deploy", cmds(&["echo deploy"]))])
            }),
        ),
        ("root/nested/inner.yml", file(|| doc(vec![], vec![("run", cmds(&["echo run"]))]))),
    ]);

    let tf = fs.load("root").unwrap();
    let names = names(&tf);

    // Root task, directory include, file include, and a nested include.
    assert!(names.contains(&"build"));
    assert!(names.contains(&"docs:serve"));
    assert!(names.contains(&"sub:deploy"));
    assert!(names.contains(&"sub:inner:run"));
    assert_eq!(names, ["build", "docs:serve", "sub:deploy", "sub:inner:run"]);
    assert_eq!(tf.version.as_deref(), Some("3"));
    assert!(tf.includes.is_empty());
}

#[test]
fn optional_missing_include_is_skipped() {
    let mut fs = Fs::new(vec![
        ("root", Node::Dir),
        (
            "root/Taskfile.yml",
            file(|| {
                doc(
                    vec![("missing", detailed("./nope/Taskfile.yml", true, false, false, &[]))],
                    vec![("build", cmds(&["cargo build"]))],
                )
            }),
        ),
    ]);
    let tf = fs.load("root").unwrap();
    assert!(tf.tasks.contains_key("build"));
}

#[test]
fn internal_tasks_are_hidden() {
    let mut fs = Fs::new(vec![
        ("root", Node::Dir),
        (
            "root/Taskfile.yml",
            file(|| {
                doc(
                    vec![],
                    vec![("build", cmds(&["cargo build"])), ("_setup", full(&[], true, &["echo setup"]))],
                )
            }),
        ),
    ]);
    let tf = fs.load("root").unwrap();
    assert!(tf.tasks.contains_key("build"));
    assert!(!tf.tasks.contains_key("_setup"));
    assert_eq!(tf.version.as_deref(), Some("3"));
    assert!(tf.includes.is_empty());
}

#[test]
fn parses_task_aliases_and_namespaces_them() {
    let mut fs = Fs::new(vec![
        ("root", Node::Dir),
        ("root/docs", Node::Dir),
        (
            "root/Taskfile.yml",
            file(|| {
                doc(vec![("docs", path_include("./docs"))], vec![("build", full(&["b", "bld"], false, &["cargo build"]))])
            }),
        ),
        ("root/docs/Taskfile.yml", file(|| doc(vec![], vec![("serve", full(&["s"], false, &["mkdocs serve"]))]))),
    ]);
    let tf = fs.load("root").unwrap();
    assert_eq!(tf.tasks["build"].aliases, ["b", "bld"]);
    // Included task aliases get the namespace prefix too.
    assert_eq!(tf.tasks["docs:serve"].aliases, ["docs:s"]);
}

#[test]
fn internal_include_is_hidden_and_flatten_excludes_work() {
    let mut fs = Fs::new(vec![
        ("root", Node::Dir),
        ("root/secret", Node::Dir),
        ("root/lib", Node::Dir),
        (
            "root/Taskfile.yml",
            file(|| {
                doc(
                    vec![
                        ("secret", detailed("./secret/Taskfile.yml", false, true, false, &[])),
                        ("lib", detailed("./lib/Taskfile.yml", false, false, true, &["helper"])),
                    ],
                    vec![("build", cmds(&["cargo build"]))],
                )
            }),
        ),
        ("root/secret/Taskfile.yml", file(|| doc(vec![], vec![("deploy", cmds(&["echo deploy"]))]))),
        (
            "root/lib/Taskfile.yml",
            file(|| doc(vec![], vec![("format", cmds(&["echo fmt"])), ("helper", cmds(&["echo helper"]))])),
        ),
    ]);
    let tf = fs.load("root").unwrap();
    let names = names(&tf);

    assert!(names.contains(&"build"));
    // internal include: none of its tasks appear (no `secret:deploy`).
    assert!(!names.iter().any(|n| n.starts_with("secret:")));
    // flatten: no namespace prefix...
    assert!(names.contains(&"format"));
    assert!(!names.contains(&"lib:format"));
    // ...and excluded tasks are dropped.
    assert!(!names.contains(&"helper"));
}

#[test]
fn missing_taskfile_is_not_found() {
    let mut fs = Fs::new(vec![("root", Node::Dir)]);
    assert!(matches!(fs.load("root"), Err(LoadError::NotFound)));
}

#[test]
fn later_candidate_names_are_found() {
    let mut fs = Fs::new(vec![
        ("root", Node::Dir),
        ("root/taskfile.yaml", file(|| doc(vec![], vec![("lower", cmds(&["x"]))]))),
    ]);
    let tf = fs.load("root").unwrap();
    assert_eq!(names(&tf), ["lower"]);
}

#[test]
fn first_candidate_name_wins() {
    let mut fs = Fs::new(vec![
        ("root", Node::Dir),
        ("root/Taskfile.yaml", file(|| doc(vec![], vec![("second", cmds(&["x"]))]))),
        ("root/Taskfile.yml", file(|| doc(vec![], vec![("first", cmds(&["x"]))]))),
    ]);
    let tf = fs.load("root").unwrap();
    assert_eq!(names(&tf), ["first"]);
}

#[test]
fn unreadable_or_malformed_root_fails() {
    let mut fs = Fs::new(vec![
        ("root", Node::Dir),
        ("root/Taskfile.yml", file(|| FileContents::Unreadable("denied".into()))),
    ]);
    match fs.load("root") {
        Err(e) => assert_eq!(e.message(), "failed to read Taskfile: denied"),
        Ok(_) => panic!("expected an error"),
    }
    let mut fs = Fs::new(vec![
        ("root", Node::Dir),
        ("root/Taskfile.yml", file(|| FileContents::Malformed("bad".into()))),
    ]);
    match fs.load("root") {
        Err(e) => assert_eq!(e.message(), "failed to parse Taskfile: bad"),
        Ok(_) => panic!("expected an error"),
    }
}

#[test]
fn malformed_required_include_fails_the_load_but_optional_does_not() {
    let mut fs = Fs::new(vec![
        ("root", Node::Dir),
        (
            "root/Taskfile.yml",
            file(|| doc(vec![("bad", path_include("bad.yml"))], vec![("build", cmds(&["x"]))])),
        ),
        ("root/bad.yml", file(|| FileContents::Malformed("oops".into()))),
    ]);
    assert!(matches!(fs.load("root"), Err(LoadError::Parse(m)) if m == "oops"));

    let mut fs = Fs::new(vec![
        ("root", Node::Dir),
        (
            "root/Taskfile.yml",
            file(|| {
                doc(
                    vec![("bad", detailed("bad.yml", true, false, false, &[])), ("ok", path_include("ok.yml"))],
                    vec![("build", cmds(&["x"]))],
                )
            }),
        ),
        ("root/bad.yml", file(|| FileContents::Malformed("oops".into()))),
        ("root/ok.yml", file(|| doc(vec![], vec![("fine", cmds(&["x"]))]))),
    ]);
    let tf = fs.load("root").unwrap();
    assert_eq!(names(&tf), ["build", "ok:fine"]);
}

#[test]
fn unreadable_include_is_tolerated() {
    let mut fs = Fs::new(vec![
        ("root", Node::Dir),
        (
            "root/Taskfile.yml",
            file(|| doc(vec![("gone", path_include("gone.yml"))], vec![("build", cmds(&["x"]))])),
        ),
        ("root/gone.yml", file(|| FileContents::Unreadable("denied".into()))),
    ]);
    let tf = fs.load("root").unwrap();
    assert_eq!(names(&tf), ["build"]);
}

#[test]
fn include_cycles_read_each_file_once() {
    let mut fs = Fs::new(vec![
        ("root", Node::Dir),
        (
            "root/Taskfile.yml",
            file(|| doc(vec![("again", path_include("Taskfile.yml"))], vec![("build", cmds(&["x"]))])),
        ),
    ]);
    let tf = fs.load("root").unwrap();
    assert_eq!(names(&tf), ["build"]);
    assert_eq!(fs.reads.len(), 1);
}

#[test]
fn later_definitions_replace_earlier_ones_in_place() {
    let mut fs = Fs::new(vec![
        ("root", Node::Dir),
        (
            "root/Taskfile.yml",
            file(|| {
                doc(
                    vec![("lib", detailed("lib.yml", false, false, true, &[]))],
                    vec![("build", cmds(&["root build"])), ("test", cmds(&["root test"]))],
                )
            }),
        ),
        ("root/lib.yml", file(|| doc(vec![], vec![("build", cmds(&["lib build"]))]))),
    ]);
    let tf = fs.load("root").unwrap();
    assert_eq!(names(&tf), ["build", "test"]);
    assert_eq!(tf.tasks["build"].cmds, ["lib build"]);
}

#[test]
fn includes_deeper_than_the_limit_are_not_followed() {
    // A chain root -> d1 -> d2 -> ... where each file includes the next.
    let mut fs = Fs::new(vec![
        ("root", Node::Dir),
        ("root/Taskfile.yml", file(|| doc(vec![("n", path_include("d1.yml"))], vec![("t", cmds(&["x"]))]))),
    ]);
    for i in 1..=20usize {
        fs.nodes.insert(
            normal(Path::new(&format!("root/d{}.yml", i))),
            file(move || {
                let next = format!("d{}.yml", i + 1);
                doc(vec![("n", path_include(&next))], vec![("t", cmds(&["x"]))])
            }),
        );
    }
    let tf = fs.load("root").unwrap();
    // The top level plus 16 nested levels are merged.
    assert_eq!(tf.tasks.len(), 17);
    let deepest = format!("{}t", "n:".repeat(16));
    assert!(tf.tasks.contains_key(&deepest));
    let too_deep = format!("{}t", "n:".repeat(17));
    assert!(!tf.tasks.contains_key(&too_deep));
}

#[test]
fn remote_and_unset_includes_are_ignored() {
    let inc = |taskfile: Option<&str>, dir: Option<&str>| Include {
        taskfile: taskfile.map(|s| s.to_string()),
        dir: dir.map(|s| s.to_string()),
        optional: false,
        internal: false,
        flatten: false,
        excludes: Vec::new(),
    };
    assert_eq!(resolve_include(&inc(Some("https://x/Taskfile.yml"), None)), None);
    assert_eq!(resolve_include(&inc(Some("http://x"), None)), None);
    assert_eq!(resolve_include(&inc(None, None)), None);
    assert_eq!(resolve_include(&inc(None, Some("./docs"))), Some("./docs".to_string()));
    assert_eq!(resolve_include(&inc(Some("a.yml"), Some("./docs"))), Some("a.yml".to_string()));
    assert_eq!(resolve_include(&inc(Some("httpx.yml"), None)), Some("httpx.yml".to_string()));
}

#[test]
fn wrong_answers_repeat_the_request() {
    let step = Taskfile::load_from_dir("root".to_string());
    let (loader, request) = match step {
        LoadStep::Pending(l, r) => (l, r),
        _ => panic!("expected a request"),
    };
    assert!(matches!(&request, LoadRequest::Probe { base, name } if base == "root" && name == "Taskfile.yml"));
    match loader.step(LoadEvent::Canonical { path: "x".into() }) {
        LoadStep::Pending(_, LoadRequest::Probe { base, name }) => {
            assert_eq!(base, "root");
            assert_eq!(name, "Taskfile.yml");
        }
        _ => panic!("expected the same request"),
    }
}
