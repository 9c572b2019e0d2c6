//! The task-related shapes of a Taskfile and how the flexible YAML forms
//! are normalised into them.
use vstd::prelude::*;

verus! {

/// A variable a task requires before it can run (`requires.vars`).
#[derive(Debug, Default, Clone)]
pub struct RequiredVar {
    pub name: String,
    /// Allowed values when the variable is constrained by an `enum`.
    /// Empty means any value is accepted (free-form input).
    pub enum_values: Vec<String>,
}

pub struct RequiredVarView {
    pub name: Seq<char>,
    pub enum_values: Seq<Seq<char>>,
}

impl View for RequiredVar {
    type V = RequiredVarView;

    open spec fn view(&self) -> RequiredVarView {
        RequiredVarView { name: self.name@, enum_values: self.enum_values.deep_view() }
    }
}

impl DeepView for RequiredVar {
    type V = RequiredVarView;

    open spec fn deep_view(&self) -> RequiredVarView {
        self@
    }
}

/// A single task definition.
#[derive(Debug, Default)]
pub struct TaskDef {
    pub desc: Option<String>,
    pub summary: Option<String>,
    pub cmds: Vec<String>,
    /// Variables the task declares under `requires.vars`.
    pub requires: Vec<RequiredVar>,
    /// Alternative names the task can be matched/selected by (`aliases`).
    pub aliases: Vec<String>,
    /// `internal: true` tasks are callable only by other tasks; hide them.
    pub internal: bool,
}

pub struct TaskDefView {
    pub desc: Option<Seq<char>>,
    pub summary: Option<Seq<char>>,
    pub cmds: Seq<Seq<char>>,
    pub requires: Seq<RequiredVarView>,
    pub aliases: Seq<Seq<char>>,
    pub internal: bool,
}

impl View for TaskDef {
    type V = TaskDefView;

    open spec fn view(&self) -> TaskDefView {
        TaskDefView {
            desc: self.desc.deep_view(),
            summary: self.summary.deep_view(),
            cmds: self.cmds.deep_view(),
            requires: self.requires.deep_view(),
            aliases: self.aliases.deep_view(),
            internal: self.internal,
        }
    }
}

/// An entry under `includes`, normalised.
#[derive(Debug, Clone)]
pub struct Include {
    /// Path to the included Taskfile (relative to the including file).
    pub taskfile: Option<String>,
    /// Directory to look in when no explicit `taskfile` is given.
    pub dir: Option<String>,
    /// A missing optional include is silently skipped instead of erroring.
    pub optional: bool,
    /// `internal: true` hides every task pulled in by this include.
    pub internal: bool,
    /// `flatten: true` merges the included tasks without a namespace prefix.
    pub flatten: bool,
    /// Task names to drop when flattening.
    pub excludes: Vec<String>,
}

pub struct IncludeView {
    pub taskfile: Option<Seq<char>>,
    pub dir: Option<Seq<char>>,
    pub optional: bool,
    pub internal: bool,
    pub flatten: bool,
    pub excludes: Seq<Seq<char>>,
}

impl View for Include {
    type V = IncludeView;

    open spec fn view(&self) -> IncludeView {
        IncludeView {
            taskfile: self.taskfile.deep_view(),
            dir: self.dir.deep_view(),
            optional: self.optional,
            internal: self.internal,
            flatten: self.flatten,
            excludes: self.excludes.deep_view(),
        }
    }
}

/// An `includes` entry as written: a bare path, or a mapping.
#[derive(Debug)]
pub enum RawInclude {
    /// `docs: ./docs/Taskfile.yml`
    Path(String),
    /// `docs: { taskfile: ..., dir: ..., optional: true, ... }`
    Detailed {
        taskfile: Option<String>,
        dir: Option<String>,
        optional: bool,
        internal: bool,
        flatten: bool,
        excludes: Vec<String>,
    },
}

/// An entry under `requires.vars` as written: a bare name, or a mapping
/// with an optional `enum` constraint.
#[derive(Debug)]
pub enum RawVar {
    Name(String),
    Detailed { name: String, enum_values: Vec<String> },
}

/// A command entry as written: a plain string, a mapping with a `cmd` or
/// `task` key, or any other shape (which is not displayed).
#[derive(Debug)]
pub enum RawCmd {
    Str(String),
    Mapping { cmd: Option<String>, task: Option<String> },
    Other,
}

/// A task as written: a bare list of commands, or a full mapping.
#[derive(Debug)]
pub enum RawTask {
    Cmds(Vec<RawCmd>),
    Full {
        desc: Option<String>,
        summary: Option<String>,
        cmds: Vec<RawCmd>,
        /// The `requires.vars` entries; `None` when the task has no
        /// `requires:` block.
        vars: Option<Vec<RawVar>>,
        aliases: Vec<String>,
        internal: bool,
    },
}

/// One parsed Taskfile document, before its includes are followed.
#[derive(Debug)]
pub struct RawTaskfile {
    pub version: Option<String>,
    pub includes: Vec<(String, RawInclude)>,
    pub tasks: Vec<(String, RawTask)>,
}

/// The text `task: ` that introduces a call of another task.
pub open spec fn task_call_prefix() -> Seq<char> {
    seq!['t', 'a', 's', 'k', ':', ' ']
}

/// The line displayed for a command entry, if it has one.
pub open spec fn cmd_text(c: RawCmd) -> Option<Seq<char>> {
    match c {
        RawCmd::Str(s) => Some(s@),
        RawCmd::Mapping { cmd: Some(c), .. } => Some(c@),
        RawCmd::Mapping { cmd: None, task: Some(t) } => Some(task_call_prefix() + t@),
        _ => None,
    }
}

/// The displayed lines of a command list, in order, skipping entries that
/// have none.
pub open spec fn cmd_texts(cmds: Seq<RawCmd>) -> Seq<Seq<char>>
    decreases cmds.len(),
{
    if cmds.len() == 0 {
        Seq::empty()
    } else {
        let rest = cmd_texts(cmds.drop_last());
        match cmd_text(cmds.last()) {
            Some(t) => rest.push(t),
            None => rest,
        }
    }
}

pub open spec fn required_var_of(v: RawVar) -> RequiredVarView {
    match v {
        RawVar::Name(name) => RequiredVarView { name: name@, enum_values: Seq::empty() },
        RawVar::Detailed { name, enum_values } => RequiredVarView {
            name: name@,
            enum_values: enum_values.deep_view(),
        },
    }
}

pub open spec fn include_of(raw: RawInclude) -> IncludeView {
    match raw {
        RawInclude::Path(p) => IncludeView {
            taskfile: Some(p@),
            dir: None,
            optional: false,
            internal: false,
            flatten: false,
            excludes: Seq::empty(),
        },
        RawInclude::Detailed { taskfile, dir, optional, internal, flatten, excludes } =>
            IncludeView {
            taskfile: taskfile.deep_view(),
            dir: dir.deep_view(),
            optional,
            internal,
            flatten,
            excludes: excludes.deep_view(),
        },
    }
}

pub open spec fn task_of(raw: RawTask) -> TaskDefView {
    match raw {
        RawTask::Cmds(cmds) => TaskDefView {
            desc: None,
            summary: None,
            cmds: cmd_texts(cmds@),
            requires: Seq::empty(),
            aliases: Seq::empty(),
            internal: false,
        },
        RawTask::Full { desc, summary, cmds, vars, aliases, internal } => TaskDefView {
            desc: desc.deep_view(),
            summary: summary.deep_view(),
            cmds: cmd_texts(cmds@),
            requires: match vars {
                Some(list) => list@.map_values(|v: RawVar| required_var_of(v)),
                None => Seq::empty(),
            },
            aliases: aliases.deep_view(),
            internal,
        },
    }
}

impl RawCmd {
    /// The line to display for this command entry, if any.
    pub fn into_string(self) -> (r: Option<String>)
        ensures
            r.deep_view() == cmd_text(self),
    {
        match self {
            RawCmd::Str(s) => Some(s),
            RawCmd::Mapping { cmd: Some(c), .. } => Some(c),
            RawCmd::Mapping { cmd: None, task: Some(t) } => {
                let mut s = String::from_str("task: ");
                proof {
                    reveal_strlit("task: ");
                }
                s.append(t.as_str());
                assert(s@ =~= task_call_prefix() + t@);
                Some(s)
            },
            _ => None,
        }
    }
}

/// Keep the displayable commands, in order.
fn collect_cmds(cmds: Vec<RawCmd>) -> (r: Vec<String>)
    ensures
        r.deep_view() == cmd_texts(cmds@),
{
    let ghost all = cmds@;
    let mut rest = cmds;
    let mut out: Vec<String> = Vec::new();
    let ghost mut done: Seq<RawCmd> = Seq::empty();
    while rest.len() > 0
        invariant
            all == done + rest@,
            out.deep_view() == cmd_texts(done),
        decreases rest.len(),
    {
        let c = rest.remove(0);
        let ghost c_ghost = c;
        let t = c.into_string();
        proof {
            assert(done.push(c_ghost).drop_last() =~= done);
            assert(all =~= done.push(c_ghost) + rest@);
        }
        match t {
            Some(s) => {
                out.push(s);
                assert(out.deep_view() =~= cmd_texts(done).push(s@));
            },
            None => {},
        }
        proof {
            done = done.push(c_ghost);
        }
    }
    assert(done =~= all);
    out
}

impl RequiredVar {
    /// Normalise a `requires.vars` entry.
    pub fn from_raw(raw: RawVar) -> (r: RequiredVar)
        ensures
            r@ == required_var_of(raw),
    {
        match raw {
            RawVar::Name(name) => {
                let r = RequiredVar { name, enum_values: Vec::new() };
                assert(r.enum_values.deep_view() =~= Seq::<Seq<char>>::empty());
                r
            },
            RawVar::Detailed { name, enum_values } => RequiredVar { name, enum_values },
        }
    }
}

fn collect_vars(vars: Vec<RawVar>) -> (r: Vec<RequiredVar>)
    ensures
        r.deep_view() == vars@.map_values(|v: RawVar| required_var_of(v)),
{
    let ghost all = vars@;
    let mut rest = vars;
    let mut out: Vec<RequiredVar> = Vec::new();
    while rest.len() > 0
        invariant
            out.len() + rest.len() == all.len(),
            rest@ == all.subrange(out.len() as int, all.len() as int),
            forall|i: int| 0 <= i < out.len() ==> (#[trigger] out@[i])@ == required_var_of(all[i]),
        decreases rest.len(),
    {
        let v = rest.remove(0);
        let r = RequiredVar::from_raw(v);
        out.push(r);
        assert(rest@ =~= all.subrange(out.len() as int, all.len() as int));
    }
    assert(out.deep_view() =~= all.map_values(|v: RawVar| required_var_of(v)));
    out
}

impl TaskDef {
    /// Normalise a task as written into its definition.
    pub fn from_raw(raw: RawTask) -> (r: TaskDef)
        ensures
            r@ == task_of(raw),
    {
        match raw {
            RawTask::Cmds(cmds) => {
                let r = TaskDef {
                    desc: None,
                    summary: None,
                    cmds: collect_cmds(cmds),
                    requires: Vec::new(),
                    aliases: Vec::new(),
                    internal: false,
                };
                assert(r.requires.deep_view() =~= Seq::<RequiredVarView>::empty());
                assert(r.aliases.deep_view() =~= Seq::<Seq<char>>::empty());
                r
            },
            RawTask::Full { desc, summary, cmds, vars, aliases, internal } => {
                let reqs = match vars {
                    Some(list) => collect_vars(list),
                    None => {
                        let v: Vec<RequiredVar> = Vec::new();
                        assert(v.deep_view() =~= Seq::<RequiredVarView>::empty());
                        v
                    },
                };
                TaskDef {
                    desc,
                    summary,
                    cmds: collect_cmds(cmds),
                    requires: reqs,
                    aliases,
                    internal,
                }
            },
        }
    }
}

impl Include {
    /// Normalise an `includes` entry.
    pub fn from_raw(raw: RawInclude) -> (r: Include)
        ensures
            r@ == include_of(raw),
    {
        match raw {
            RawInclude::Path(taskfile) => {
                let r = Include {
                    taskfile: Some(taskfile),
                    dir: None,
                    optional: false,
                    internal: false,
                    flatten: false,
                    excludes: Vec::new(),
                };
                assert(r.excludes.deep_view() =~= Seq::<Seq<char>>::empty());
                r
            },
            RawInclude::Detailed { taskfile, dir, optional, internal, flatten, excludes } =>
                Include { taskfile, dir, optional, internal, flatten, excludes },
        }
    }
}

} // verus!
