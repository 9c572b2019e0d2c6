//! Normalising task and include entries as they are written in a Taskfile.
use fzftask::load_model::PathKind;
use fzftask::loader::{FileContents, LoadError, LoadEvent, LoadRequest, LoadStep, Taskfile};
use fzftask::taskdef::{
    Include, RawCmd, RawInclude, RawTask, RawTaskfile, RawVar, RequiredVar, TaskDef,
};

fn s(v: &str) -> String {
    v.to_string()
}

#[test]
fn tolerates_null_commands_and_unmodelled_fields() {
    // `cmds: [- # FORMAT, npm run format-check, - # LINT, npm run lint,
    //         task: setup, cmd: echo done]`: comment-only items are nulls.
    let raw = RawTask::Full {
        desc: Some(s("run all CI checks")),
        summary: None,
        cmds: vec![
            RawCmd::Other,
            RawCmd::Str(s("npm run format-check")),
            RawCmd::Other,
            RawCmd::Str(s("npm run lint")),
            RawCmd::Mapping { cmd: None, task: Some(s("setup")) },
            RawCmd::Mapping { cmd: Some(s("echo done")), task: None },
        ],
        vars: None,
        aliases: Vec::new(),
        internal: false,
    };
    let ci = TaskDef::from_raw(raw);
    assert_eq!(ci.desc.as_deref(), Some("run all CI checks"));
    // null (comment-only) entries are dropped; real commands keep order.
    assert_eq!(ci.cmds, ["npm run format-check", "npm run lint", "task: setup", "echo done"]);
}

/// Loads a Taskfile made of `doc` alone, found at `/r/Taskfile.yml`.
fn load_single(doc: fn() -> RawTaskfile) -> Result<Taskfile, LoadError> {
    let mut step = Taskfile::load_from_dir(s("/r"));
    loop {
        match step {
            LoadStep::Finished(r) => return r,
            LoadStep::Pending(loader, request) => {
                let event = match request {
                    LoadRequest::Probe { base, name } => {
                        LoadEvent::Probed { path: format!("{base}/{name}"), kind: PathKind::File }
                    }
                    LoadRequest::Canonicalize { path } => LoadEvent::Canonical { path },
                    LoadRequest::Read { .. } => {
                        LoadEvent::Read { dir: Some(s("/r")), contents: FileContents::Parsed(doc()) }
                    }
                };
                step = loader.step(event);
            }
        }
    }
}

#[test]
fn parses_full_and_shorthand_tasks() {
    // version: '3'
    // tasks:
    //   build: {desc: Build it, cmds: [cargo build]}
    //   quick: [echo hi, echo bye]
    //   composite: {summary: Runs other tasks, cmds: [{cmd: echo start}, {task: build}]}
    fn doc() -> RawTaskfile {
        RawTaskfile {
            version: Some(s("3")),
            includes: Vec::new(),
            tasks: vec![
                (
                    s("build"),
                    RawTask::Full {
                        desc: Some(s("Build it")),
                        summary: None,
                        cmds: vec![RawCmd::Str(s("cargo build"))],
                        vars: None,
                        aliases: Vec::new(),
                        internal: false,
                    },
                ),
                (s("quick"), RawTask::Cmds(vec![RawCmd::Str(s("echo hi")), RawCmd::Str(s("echo bye"))])),
                (
                    s("composite"),
                    RawTask::Full {
                        desc: None,
                        summary: Some(s("Runs other tasks")),
                        cmds: vec![
                            RawCmd::Mapping { cmd: Some(s("echo start")), task: None },
                            RawCmd::Mapping { cmd: None, task: Some(s("build")) },
                        ],
                        vars: None,
                        aliases: Vec::new(),
                        internal: false,
                    },
                ),
            ],
        }
    }
    let tf = load_single(doc).unwrap();

    assert_eq!(tf.version.as_deref(), Some("3"));
    // Order is preserved.
    let names: Vec<_> = tf.tasks.keys().cloned().collect();
    assert_eq!(names, ["build", "quick", "composite"]);

    let build = &tf.tasks["build"];
    assert_eq!(build.desc.as_deref(), Some("Build it"));
    assert_eq!(build.cmds, ["cargo build"]);

    let quick = &tf.tasks["quick"];
    assert_eq!(quick.cmds, ["echo hi", "echo bye"]);
    assert!(quick.desc.is_none() && quick.summary.is_none());
    assert!(quick.requires.is_empty() && quick.aliases.is_empty() && !quick.internal);

    let composite = &tf.tasks["composite"];
    assert_eq!(composite.summary.as_deref(), Some("Runs other tasks"));
    assert_eq!(composite.cmds, ["echo start", "task: build"]);
}

#[test]
fn parses_requires_with_and_without_enum() {
    let deploy = TaskDef::from_raw(RawTask::Full {
        desc: Some(s("Deploy the app")),
        summary: None,
        cmds: vec![RawCmd::Str(s("echo deploy"))],
        vars: Some(vec![
            RawVar::Name(s("NAME")),
            RawVar::Detailed { name: s("ENV"), enum_values: vec![s("dev"), s("staging"), s("prod")] },
        ]),
        aliases: Vec::new(),
        internal: false,
    });

    assert_eq!(deploy.requires.len(), 2);

    // Bare name -> free-form (no enum).
    assert_eq!(deploy.requires[0].name, "NAME");
    assert!(deploy.requires[0].enum_values.is_empty());

    // Detailed name with enum candidates.
    assert_eq!(deploy.requires[1].name, "ENV");
    assert_eq!(deploy.requires[1].enum_values, ["dev", "staging", "prod"]);
}

#[test]
fn cmd_mapping_prefers_cmd_over_task_and_skips_empty_mappings() {
    let both = RawCmd::Mapping { cmd: Some(s("echo a")), task: Some(s("b")) };
    assert_eq!(both.into_string().as_deref(), Some("echo a"));
    let neither = RawCmd::Mapping { cmd: None, task: None };
    assert_eq!(neither.into_string(), None);
    assert_eq!(RawCmd::Other.into_string(), None);
}

#[test]
fn required_var_from_raw() {
    let v: RequiredVar = RequiredVar::from_raw(RawVar::Name(s("X")));
    assert_eq!(v.name, "X");
    assert!(v.enum_values.is_empty());
}

#[test]
fn include_from_path_and_mapping() {
    let p: Include = Include::from_raw(RawInclude::Path(s("./docs")));
    assert_eq!(p.taskfile.as_deref(), Some("./docs"));
    assert!(p.dir.is_none() && !p.optional && !p.internal && !p.flatten && p.excludes.is_empty());
    let d = Include::from_raw(RawInclude::Detailed {
        taskfile: None,
        dir: Some(s("lib")),
        optional: true,
        internal: false,
        flatten: true,
        excludes: vec![s("helper")],
    });
    assert_eq!(d.dir.as_deref(), Some("lib"));
    assert!(d.taskfile.is_none() && d.optional && d.flatten);
    assert_eq!(d.excludes, ["helper"]);
}

#[test]
fn internal_flag_is_kept() {
    let t = TaskDef::from_raw(RawTask::Full {
        desc: None,
        summary: None,
        cmds: Vec::new(),
        vars: Some(Vec::new()),
        aliases: vec![s("a")],
        internal: true,
    });
    assert!(t.internal);
    assert!(t.requires.is_empty());
    assert_eq!(t.aliases, ["a"]);
}
