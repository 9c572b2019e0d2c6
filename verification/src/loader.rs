//! Loading a Taskfile together with everything it includes. The loader is
//! a state machine (its meaning is `load_model`): each step takes one
//! answer from the file system and either asks the next question or
//! finishes with the merged task table.
use vstd::prelude::*;
use vstd::std_specs::iter::IteratorSpec;
use indexmap::IndexMap;
use crate::taskdef::{
    Include, IncludeView, RawInclude, RawTask, RawTaskfile, TaskDef, TaskDefView, include_of,
    task_of,
};
use crate::task_map::{task_entries, new_task_table, insert_task};
use crate::text::{concat, clone_strings, contains_str};
use crate::load_laws::lemma_finished_load_has_no_includes;
use crate::load_model::{
    ContentsModel, EventModel, FrameModel, LoadErrorModel, LoaderModel, MAX_INCLUDE_DEPTH,
    PathKind, PhaseModel, RequestModel, StepModel, TargetModel, TaskfileModel, advance, enter, fail,
    http_scheme, https_scheme, include_location, is_remote, merge_spec, namespaced,
    nested_target, pending_request, start_model, step_model, taskfile_names,
};

verus! {

broadcast use vstd::string::group_string_axioms;

/// Errors that can occur while locating and parsing a Taskfile.
#[derive(Debug)]
pub enum LoadError {
    /// No Taskfile in the directory.
    NotFound,
    /// The Taskfile could not be read; the reason as text.
    Io(String),
    /// The Taskfile is not well-formed; the reason as text.
    Parse(String),
}

impl View for LoadError {
    type V = LoadErrorModel;

    open spec fn view(&self) -> LoadErrorModel {
        match self {
            LoadError::NotFound => LoadErrorModel::NotFound,
            LoadError::Io(m) => LoadErrorModel::Io(m@),
            LoadError::Parse(m) => LoadErrorModel::Parse(m@),
        }
    }
}

/// How a load error is described to the user.
pub open spec fn load_error_text(e: LoadErrorModel) -> Seq<char> {
    match e {
        LoadErrorModel::NotFound => "no Taskfile.yml found in the current directory"@,
        LoadErrorModel::Io(m) => "failed to read Taskfile: "@ + m,
        LoadErrorModel::Parse(m) => "failed to parse Taskfile: "@ + m,
    }
}

impl LoadError {
    /// The description of the error shown to the user.
    pub fn message(&self) -> (r: String)
        ensures
            r@ == load_error_text(self@),
    {
        match self {
            LoadError::NotFound => String::from_str("no Taskfile.yml found in the current directory"),
            LoadError::Io(m) => concat("failed to read Taskfile: ", m.as_str()),
            LoadError::Parse(m) => concat("failed to parse Taskfile: ", m.as_str()),
        }
    }
}

/// A loaded Taskfile: the top-level file's version and the tasks of the
/// file and of everything it includes, namespaced, in order.
#[derive(Debug)]
pub struct Taskfile {
    pub version: Option<String>,
    /// Includes still to be followed; always empty once loaded.
    pub includes: Vec<(String, Include)>,
    /// Task name -> definition, in the order the tasks were first defined.
    pub tasks: IndexMap<String, TaskDef>,
}

impl View for Taskfile {
    type V = TaskfileModel;

    open spec fn view(&self) -> TaskfileModel {
        TaskfileModel {
            version: self.version.deep_view(),
            includes: includes_model(self.includes@),
            tasks: task_entries(self.tasks),
        }
    }
}

/// What a file holds, as the file system reports it.
#[derive(Debug)]
pub enum FileContents {
    Unreadable(String),
    Malformed(String),
    Parsed(RawTaskfile),
}

/// An answer to a `LoadRequest`.
pub enum LoadEvent {
    /// `path` is the probed name joined onto its base; `kind` what is there.
    Probed { path: String, kind: PathKind },
    /// The canonical form of the path asked for (the path itself when it
    /// cannot be canonicalised).
    Canonical { path: String },
    /// The parent directory of the file asked for, and its contents.
    Read { dir: Option<String>, contents: FileContents },
}

pub open spec fn includes_of(s: Seq<(String, RawInclude)>) -> Seq<(Seq<char>, IncludeView)> {
    s.map_values(|p: (String, RawInclude)| (p.0@, include_of(p.1)))
}

pub open spec fn tasks_of(s: Seq<(String, RawTask)>) -> Seq<(Seq<char>, TaskDefView)> {
    s.map_values(|p: (String, RawTask)| (p.0@, task_of(p.1)))
}

impl View for FileContents {
    type V = ContentsModel;

    open spec fn view(&self) -> ContentsModel {
        match self {
            FileContents::Unreadable(m) => ContentsModel::Unreadable(m@),
            FileContents::Malformed(m) => ContentsModel::Malformed(m@),
            FileContents::Parsed(raw) => ContentsModel::Parsed {
                version: raw.version.deep_view(),
                includes: includes_of(raw.includes@),
                tasks: tasks_of(raw.tasks@),
            },
        }
    }
}

impl View for LoadEvent {
    type V = EventModel;

    open spec fn view(&self) -> EventModel {
        match self {
            LoadEvent::Probed { path, kind } => EventModel::Probed { path: path@, kind: *kind },
            LoadEvent::Canonical { path } => EventModel::Canonical { path: path@ },
            LoadEvent::Read { dir, contents } => EventModel::Read {
                dir: dir.deep_view(),
                contents: contents@,
            },
        }
    }
}

/// A question for the file system.
pub enum LoadRequest {
    /// What is at `name` joined onto `base`? Answer with `Probed`.
    Probe { base: String, name: String },
    /// What is the canonical form of `path`? Answer with `Canonical`.
    Canonicalize { path: String },
    /// What is the parent directory of `path`, and what does the file
    /// hold? Answer with `Read`.
    Read { path: String },
}

impl View for LoadRequest {
    type V = RequestModel;

    open spec fn view(&self) -> RequestModel {
        match self {
            LoadRequest::Probe { base, name } => RequestModel::Probe { base: base@, name: name@ },
            LoadRequest::Canonicalize { path } => RequestModel::Canonicalize { path: path@ },
            LoadRequest::Read { path } => RequestModel::Read { path: path@ },
        }
    }
}

struct Target {
    prefix: String,
    excludes: Vec<String>,
    depth: usize,
    optional: bool,
}

impl View for Target {
    type V = TargetModel;

    closed spec fn view(&self) -> TargetModel {
        TargetModel {
            prefix: self.prefix@,
            excludes: self.excludes.deep_view(),
            depth: self.depth as nat,
            optional: self.optional,
        }
    }
}

struct Frame {
    prefix: String,
    base: String,
    includes: Vec<(String, Include)>,
    next: usize,
    depth: usize,
    optional: bool,
}

/// Include pairs by their views.
pub open spec fn includes_model(s: Seq<(String, Include)>) -> Seq<(Seq<char>, IncludeView)> {
    s.map_values(|p: (String, Include)| (p.0@, p.1@))
}

impl View for Frame {
    type V = FrameModel;

    closed spec fn view(&self) -> FrameModel {
        FrameModel {
            prefix: self.prefix@,
            base: self.base@,
            includes: includes_model(self.includes@),
            next: self.next as nat,
            depth: self.depth as nat,
            optional: self.optional,
        }
    }
}

spec fn frames_model(s: Seq<Frame>) -> Seq<FrameModel> {
    s.map_values(|f: Frame| f@)
}

spec fn frames_ok(s: Seq<Frame>) -> bool {
    forall|i: int|
        0 <= i < s.len() ==> (#[trigger] s[i]).next <= s[i].includes@.len() && s[i].depth
            <= MAX_INCLUDE_DEPTH
}

enum Phase {
    Find { dir: String, next: usize, target: Target },
    Resolve { base: String, rel: String, target: Target },
    Canonicalize { path: String, target: Target },
    Read { path: String, target: Target },
}

impl View for Phase {
    type V = PhaseModel;

    closed spec fn view(&self) -> PhaseModel {
        match self {
            Phase::Find { dir, next, target } => PhaseModel::Find {
                dir: dir@,
                next: *next as nat,
                target: target@,
            },
            Phase::Resolve { base, rel, target } => PhaseModel::Resolve {
                base: base@,
                rel: rel@,
                target: target@,
            },
            Phase::Canonicalize { path, target } => PhaseModel::Canonicalize {
                path: path@,
                target: target@,
            },
            Phase::Read { path, target } => PhaseModel::Read { path: path@, target: target@ },
        }
    }
}

spec fn phase_ok(p: Phase) -> bool {
    match p {
        Phase::Find { next, target, .. } => next < 4 && target.depth <= MAX_INCLUDE_DEPTH + 1,
        Phase::Resolve { target, .. } => target.depth <= MAX_INCLUDE_DEPTH + 1,
        Phase::Canonicalize { target, .. } => target.depth <= MAX_INCLUDE_DEPTH,
        Phase::Read { target, .. } => target.depth <= MAX_INCLUDE_DEPTH,
    }
}

/// A load in progress, waiting for the answer to its last request.
pub struct Loader {
    tasks: IndexMap<String, TaskDef>,
    visited: Vec<String>,
    frames: Vec<Frame>,
    version: Option<String>,
    phase: Phase,
}

impl Loader {
    #[verifier::type_invariant]
    spec fn well_formed(self) -> bool {
        frames_ok(self.frames@) && phase_ok(self.phase)
    }
}

impl View for Loader {
    type V = LoaderModel;

    closed spec fn view(&self) -> LoaderModel {
        LoaderModel {
            tasks: task_entries(self.tasks),
            visited: self.visited.deep_view(),
            frames: frames_model(self.frames@),
            version: self.version.deep_view(),
            phase: self.phase@,
        }
    }
}

/// The outcome of one step of loading.
pub enum LoadStep {
    /// Still loading: answer the request and pass the answer to `step`.
    Pending(Loader, LoadRequest),
    /// Loading is over.
    Finished(Result<Taskfile, LoadError>),
}

impl View for LoadStep {
    type V = StepModel;

    open spec fn view(&self) -> StepModel {
        match self {
            LoadStep::Pending(l, r) => StepModel::Pending(l@, r@),
            LoadStep::Finished(Ok(t)) => StepModel::Finished(Ok(t@)),
            LoadStep::Finished(Err(e)) => StepModel::Finished(Err(e@)),
        }
    }
}

/// The `i`th file name tried when looking for a Taskfile.
fn taskfile_name(i: usize) -> (r: String)
    requires
        i < 4,
    ensures
        r@ == taskfile_names()[i as int],
{
    if i == 0 {
        proof { reveal_strlit("Taskfile.yml"); }
        let r = String::from_str("Taskfile.yml");
        assert(r@ =~= taskfile_names()[0]);
        r
    } else if i == 1 {
        proof { reveal_strlit("Taskfile.yaml"); }
        let r = String::from_str("Taskfile.yaml");
        assert(r@ =~= taskfile_names()[1]);
        r
    } else if i == 2 {
        proof { reveal_strlit("taskfile.yml"); }
        let r = String::from_str("taskfile.yml");
        assert(r@ =~= taskfile_names()[2]);
        r
    } else {
        proof { reveal_strlit("taskfile.yaml"); }
        let r = String::from_str("taskfile.yaml");
        assert(r@ =~= taskfile_names()[3]);
        r
    }
}

/// Whether `p` is a prefix of `s`.
fn has_prefix(s: &str, p: &str) -> (r: bool)
    ensures
        r == p@.is_prefix_of(s@),
{
    let mut sc = s.chars();
    let mut pc = p.chars();
    let ghost mut done: Seq<char> = Seq::empty();
    loop
        invariant
            s@ == done + sc.remaining(),
            p@ == done + pc.remaining(),
            pc.decrease() is Some,
        decreases pc.decrease()->0,
    {
        match pc.next() {
            None => {
                assert(done =~= p@);
                assert(s@.subrange(0, p@.len() as int) =~= p@);
                return true;
            },
            Some(c) => {
                match sc.next() {
                    None => {
                        assert(s@.len() < p@.len());
                        return false;
                    },
                    Some(d) => {
                        if c != d {
                            assert(s@[done.len() as int] == d);
                            assert(p@[done.len() as int] == c);
                            proof {
                                if s@.len() >= p@.len() {
                                    assert(s@.subrange(0, p@.len() as int)[done.len() as int] == d);
                                }
                            }
                            return false;
                        }
                        proof {
                            assert(s@ =~= done.push(c) + sc.remaining());
                            assert(p@ =~= done.push(c) + pc.remaining());
                            done = done.push(c);
                        }
                    },
                }
            },
        }
    }
}

/// Whether a location is on another host (`http://` or `https://`).
fn remote(rel: &str) -> (r: bool)
    ensures
        r == is_remote(rel@),
{
    proof { reveal_strlit("http://"); }
    proof { reveal_strlit("https://"); }
    assert("http://"@ =~= http_scheme());
    assert("https://"@ =~= https_scheme());
    has_prefix(rel, "http://") || has_prefix(rel, "https://")
}

/// Where an include points, relative to the including file's directory:
/// its `taskfile`, else its `dir`; `None` for remote or unset locations.
pub fn resolve_include(inc: &Include) -> (r: Option<String>)
    ensures
        r.deep_view() == include_location(inc@),
{
    let rel = match &inc.taskfile {
        Some(t) => t,
        None => match &inc.dir {
            Some(d) => d,
            None => {
                return None;
            },
        },
    };
    if remote(rel.as_str()) {
        None
    } else {
        Some(rel.clone())
    }
}

/// What looking for a Taskfile does after learning what is at candidate
/// number `tried`.
pub enum FindStep {
    /// The candidate is the Taskfile.
    Found,
    /// Try the candidate with this number next.
    TryNext(usize),
    /// No candidate is left: the directory holds no Taskfile.
    Exhausted,
}

/// Decide, after probing `taskfile_names()[tried]`, whether the Taskfile
/// is found, which candidate to try next, or that there is none.
pub fn find_taskfile(tried: usize, kind: PathKind) -> (r: FindStep)
    requires
        tried < 4,
    ensures
        kind == PathKind::File ==> r is Found,
        kind != PathKind::File && tried + 1 < taskfile_names().len() ==> r == FindStep::TryNext(
            (tried + 1) as usize,
        ),
        kind != PathKind::File && tried + 1 >= taskfile_names().len() ==> r is Exhausted,
{
    if kind == PathKind::File {
        FindStep::Found
    } else if tried + 1 < 4 {
        FindStep::TryNext(tried + 1)
    } else {
        FindStep::Exhausted
    }
}

/// Every alias with `prefix` in front.
fn prefix_all(v: &Vec<String>, prefix: &String) -> (r: Vec<String>)
    ensures
        r.deep_view() == v.deep_view().map_values(|a: Seq<char>| prefix@ + a),
{
    let mut r: Vec<String> = Vec::new();
    let mut i: usize = 0;
    while i < v.len()
        invariant
            i <= v.len(),
            r.len() == i,
            forall|j: int| 0 <= j < i ==> (#[trigger] r@[j])@ == prefix@ + v@[j]@,
        decreases v.len() - i,
    {
        r.push(concat(prefix.as_str(), v[i].as_str()));
        i = i + 1;
    }
    assert(r.deep_view() =~= v.deep_view().map_values(|a: Seq<char>| prefix@ + a));
    r
}

spec fn pairs_model(s: Seq<(String, TaskDef)>) -> Seq<(Seq<char>, TaskDefView)> {
    s.map_values(|p: (String, TaskDef)| (p.0@, p.1@))
}

/// Merge a file's tasks into the table: internal tasks and the names in
/// `excludes` are dropped, the rest go in under `prefix`, aliases too.
fn merge_tasks(
    tasks: &mut IndexMap<String, TaskDef>,
    file_tasks: Vec<(String, TaskDef)>,
    prefix: &String,
    excludes: &Vec<String>,
)
    ensures
        task_entries(*final(tasks)) == merge_spec(
            task_entries(*old(tasks)),
            pairs_model(file_tasks@),
            prefix@,
            excludes.deep_view(),
        ),
{
    let ghost all = file_tasks@;
    let ghost start = task_entries(*tasks);
    let mut rest = file_tasks;
    let mut done: usize = 0;
    let n = rest.len();
    assert(all.len() == n);
    while rest.len() > 0
        invariant
            done + rest.len() == all.len(),
            all.len() <= usize::MAX,
            rest@ == all.subrange(done as int, all.len() as int),
            task_entries(*tasks) == merge_spec(
                start,
                pairs_model(all.take(done as int)),
                prefix@,
                excludes.deep_view(),
            ),
        decreases rest.len(),
    {
        let ghost before = task_entries(*tasks);
        let (name, mut def) = rest.remove(0);
        proof {
            assert(all[done as int] == (name, def));
            assert(pairs_model(all.take(done + 1)).drop_last() =~= pairs_model(all.take(done as int)));
            assert(pairs_model(all.take(done + 1)).last() == (name@, def@));
        }
        if def.internal || contains_str(excludes, &name) {
        } else if prefix.as_str().is_empty() {
            proof {
                assert(prefix@ + name@ =~= name@);
                assert(def@.aliases.map_values(|a: Seq<char>| prefix@ + a) =~= def@.aliases);
                assert(namespaced(def@, prefix@) == def@);
            }
            insert_task(tasks, name, def);
        } else {
            let aliases = prefix_all(&def.aliases, prefix);
            def.aliases = aliases;
            let key = concat(prefix.as_str(), name.as_str());
            insert_task(tasks, key, def);
        }
        done = done + 1;
        assert(rest@ =~= all.subrange(done as int, all.len() as int));
    }
    assert(all.take(done as int) =~= all);
}

fn normalize_tasks(v: Vec<(String, RawTask)>) -> (r: Vec<(String, TaskDef)>)
    ensures
        pairs_model(r@) == tasks_of(v@),
{
    let ghost all = v@;
    let mut rest = v;
    let mut out: Vec<(String, TaskDef)> = Vec::new();
    while rest.len() > 0
        invariant
            out.len() + rest.len() == all.len(),
            rest@ == all.subrange(out.len() as int, all.len() as int),
            forall|j: int|
                0 <= j < out.len() ==> (#[trigger] out@[j]).0@ == all[j].0@ && out@[j].1@
                    == task_of(all[j].1),
        decreases rest.len(),
    {
        let (name, raw) = rest.remove(0);
        let def = TaskDef::from_raw(raw);
        out.push((name, def));
        assert(rest@ =~= all.subrange(out.len() as int, all.len() as int));
    }
    assert(pairs_model(out@) =~= tasks_of(all));
    out
}

fn normalize_includes(v: Vec<(String, RawInclude)>) -> (r: Vec<(String, Include)>)
    ensures
        includes_model(r@) == includes_of(v@),
{
    let ghost all = v@;
    let mut rest = v;
    let mut out: Vec<(String, Include)> = Vec::new();
    while rest.len() > 0
        invariant
            out.len() + rest.len() == all.len(),
            rest@ == all.subrange(out.len() as int, all.len() as int),
            forall|j: int|
                0 <= j < out.len() ==> (#[trigger] out@[j]).0@ == all[j].0@ && out@[j].1@
                    == include_of(all[j].1),
        decreases rest.len(),
    {
        let (name, raw) = rest.remove(0);
        let inc = Include::from_raw(raw);
        out.push((name, inc));
        assert(rest@ =~= all.subrange(out.len() as int, all.len() as int));
    }
    assert(includes_model(out@) =~= includes_of(all));
    out
}


fn clone_target(t: &Target) -> (r: Target)
    ensures
        r@ == t@,
        r.depth == t.depth,
{
    Target {
        prefix: t.prefix.clone(),
        excludes: clone_strings(&t.excludes),
        depth: t.depth,
        optional: t.optional,
    }
}

/// The question a phase waits on.
fn request_for(phase: &Phase) -> (r: LoadRequest)
    requires
        phase_ok(*phase),
    ensures
        r@ == pending_request(
            LoaderModel {
                tasks: Seq::empty(),
                visited: Seq::empty(),
                frames: Seq::empty(),
                version: None,
                phase: phase@,
            },
        ),
{
    match phase {
        Phase::Find { dir, next, .. } => LoadRequest::Probe {
            base: dir.clone(),
            name: taskfile_name(*next),
        },
        Phase::Resolve { base, rel, .. } => LoadRequest::Probe {
            base: base.clone(),
            name: rel.clone(),
        },
        Phase::Canonicalize { path, .. } => LoadRequest::Canonicalize { path: path.clone() },
        Phase::Read { path, .. } => LoadRequest::Read { path: path.clone() },
    }
}

/// Where the tasks of an include's file go.
fn nested(f: &Frame, namespace: &String, inc: &Include) -> (r: Target)
    requires
        f.depth <= MAX_INCLUDE_DEPTH,
    ensures
        r@ == nested_target(f@, namespace@, inc@),
        r.depth == f.depth + 1,
{
    if inc.flatten {
        Target {
            prefix: f.prefix.clone(),
            excludes: clone_strings(&inc.excludes),
            depth: f.depth + 1,
            optional: inc.optional,
        }
    } else {
        let p = concat(f.prefix.as_str(), namespace.as_str());
        let mut colon = String::new();
        crate::text::push_char(&mut colon, ':');
        let prefix = concat(p.as_str(), colon.as_str());
        let r = Target { prefix, excludes: Vec::new(), depth: f.depth + 1, optional: inc.optional };
        assert(r.excludes.deep_view() =~= Seq::<Seq<char>>::empty());
        assert(r@.prefix =~= f@.prefix + namespace@ + seq![':']);
        r
    }
}

spec fn remaining_count(frames: Seq<Frame>) -> int {
    if frames.len() > 0 {
        frames.last().includes@.len() - frames.last().next
    } else {
        0
    }
}

/// Move on to the next include to follow (see `load_model::advance`).
#[verifier::loop_isolation(false)]
fn advance_exec(
    tasks: IndexMap<String, TaskDef>,
    visited: Vec<String>,
    frames: Vec<Frame>,
    version: Option<String>,
) -> (r: LoadStep)
    requires
        frames_ok(frames@),
    ensures
        r@ == advance(
            task_entries(tasks),
            visited.deep_view(),
            frames_model(frames@),
            version.deep_view(),
        ),
{
    let ghost goal = advance(
        task_entries(tasks),
        visited.deep_view(),
        frames_model(frames@),
        version.deep_view(),
    );
    let mut frames = frames;
    loop
        invariant
            frames_ok(frames@),
            advance(
                task_entries(tasks),
                visited.deep_view(),
                frames_model(frames@),
                version.deep_view(),
            ) == goal,
        decreases frames.len(), remaining_count(frames@),
    {
        if frames.len() == 0 {
            let t = Taskfile { version, includes: Vec::new(), tasks };
            proof {
                assert(includes_model(t.includes@) =~= Seq::empty());
            }
            return LoadStep::Finished(Ok(t));
        }
        let ghost old_frames = frames@;
        let mut f = frames.pop().unwrap();
        proof {
            assert(old_frames =~= frames@.push(f));
            assert(frames_model(old_frames).last() == f@);
            assert(frames_model(old_frames).drop_last() =~= frames_model(frames@));
            assert(frames_ok(old_frames));
            assert(old_frames[old_frames.len() - 1] == f);
        }
        if f.next < f.includes.len() {
            let i = f.next;
            let decision: Option<(String, Target)> = {
                let pair = &f.includes[i];
                let namespace = &pair.0;
                let inc = &pair.1;
                if inc.internal {
                    None
                } else {
                    match resolve_include(inc) {
                        None => None,
                        Some(rel) => Some((rel, nested(&f, namespace, inc))),
                    }
                }
            };
            let ghost fm = f@;
            f.next = i + 1;
            proof {
                assert(f@ == FrameModel { next: fm.next + 1, ..fm });
                assert(includes_model(f.includes@)[i as int] == (f.includes@[i as int].0@, f.includes@[i as int].1@));
            }
            let base = f.base.clone();
            frames.push(f);
            proof {
                assert(frames_model(frames@) =~= frames_model(old_frames).update(
                    old_frames.len() - 1,
                    FrameModel { next: fm.next + 1, ..fm },
                ));
            }
            match decision {
                None => {},
                Some((rel, target)) => {
                    let request = LoadRequest::Probe { base: base.clone(), name: rel.clone() };
                    let loader = Loader {
                        tasks,
                        visited,
                        frames,
                        version,
                        phase: Phase::Resolve { base, rel, target },
                    };
                    return LoadStep::Pending(loader, request);
                },
            }
        }
    }
}

/// A file failed to parse (see `load_model::fail`).
#[verifier::loop_isolation(false)]
fn fail_exec(
    tasks: IndexMap<String, TaskDef>,
    visited: Vec<String>,
    frames: Vec<Frame>,
    version: Option<String>,
    msg: String,
    optional: bool,
) -> (r: LoadStep)
    requires
        frames_ok(frames@),
    ensures
        r@ == fail(
            task_entries(tasks),
            visited.deep_view(),
            frames_model(frames@),
            version.deep_view(),
            msg@,
            optional,
        ),
{
    let ghost goal = fail(
        task_entries(tasks),
        visited.deep_view(),
        frames_model(frames@),
        version.deep_view(),
        msg@,
        optional,
    );
    let mut frames = frames;
    let mut optional = optional;
    loop
        invariant
            frames_ok(frames@),
            fail(
                task_entries(tasks),
                visited.deep_view(),
                frames_model(frames@),
                version.deep_view(),
                msg@,
                optional,
            ) == goal,
        decreases frames.len(),
    {
        if optional {
            return advance_exec(tasks, visited, frames, version);
        }
        if frames.len() == 0 {
            return LoadStep::Finished(Err(LoadError::Parse(msg)));
        }
        let ghost old_frames = frames@;
        let f = frames.pop().unwrap();
        proof {
            assert(old_frames =~= frames@.push(f));
            assert(frames_model(old_frames).last() == f@);
            assert(frames_model(old_frames).drop_last() =~= frames_model(frames@));
        }
        optional = f.optional;
    }
}

/// Start loading the file at `path` (see `load_model::enter`).
fn enter_exec(
    tasks: IndexMap<String, TaskDef>,
    visited: Vec<String>,
    frames: Vec<Frame>,
    version: Option<String>,
    path: String,
    target: Target,
) -> (r: LoadStep)
    requires
        frames_ok(frames@),
        target.depth <= MAX_INCLUDE_DEPTH + 1,
    ensures
        r@ == enter(
            task_entries(tasks),
            visited.deep_view(),
            frames_model(frames@),
            version.deep_view(),
            path@,
            target@,
        ),
{
    if target.depth > MAX_INCLUDE_DEPTH {
        advance_exec(tasks, visited, frames, version)
    } else {
        let request = LoadRequest::Canonicalize { path: path.clone() };
        let loader = Loader { tasks, visited, frames, version, phase: Phase::Canonicalize { path, target } };
        LoadStep::Pending(loader, request)
    }
}

impl Taskfile {
    /// Begin loading the Taskfile in `dir`, with everything it includes.
    /// Tasks from an include are namespaced by the include key (e.g.
    /// `docs:build`). Answer each request and pass the answer to
    /// `Loader::step` until the load is finished.
    pub fn load_from_dir(dir: String) -> (r: LoadStep)
        ensures
            r@ == StepModel::Pending(start_model(dir@), pending_request(start_model(dir@))),
    {
        let target = Target { prefix: String::new(), excludes: Vec::new(), depth: 0, optional: false };
        let request = LoadRequest::Probe { base: dir.clone(), name: taskfile_name(0) };
        let loader = Loader {
            tasks: new_task_table(),
            visited: Vec::new(),
            frames: Vec::new(),
            version: None,
            phase: Phase::Find { dir, next: 0, target },
        };
        proof {
            assert(loader.visited.deep_view() =~= Seq::<Seq<char>>::empty());
            assert(frames_model(loader.frames@) =~= Seq::<FrameModel>::empty());
            assert(target.excludes.deep_view() =~= Seq::<Seq<char>>::empty());
        }
        LoadStep::Pending(loader, request)
    }
}

impl Loader {
    /// Take the answer to the last request and go on (see
    /// `load_model::step_model`).
    pub fn step(self, event: LoadEvent) -> (r: LoadStep)
        ensures
            r@ == step_model(self@, event@),
            r matches LoadStep::Finished(Ok(t)) ==> t.includes@.len() == 0,
    {
        proof {
            use_type_invariant(&self);
            lemma_finished_load_has_no_includes(self@, event@);
        }
        let ghost m = self@;
        let Loader { tasks, visited, frames, version, phase } = self;
        match phase {
            Phase::Find { dir, next, target } => match event {
                LoadEvent::Probed { path, kind } => match find_taskfile(next, kind) {
                    FindStep::Found => enter_exec(tasks, visited, frames, version, path, target),
                    FindStep::TryNext(n) => {
                        let request = LoadRequest::Probe { base: dir.clone(), name: taskfile_name(n) };
                        let loader = Loader { tasks, visited, frames, version, phase: Phase::Find { dir, next: n, target } };
                        LoadStep::Pending(loader, request)
                    },
                    FindStep::Exhausted => {
                        if frames.len() == 0 {
                            LoadStep::Finished(Err(LoadError::NotFound))
                        } else {
                            advance_exec(tasks, visited, frames, version)
                        }
                    },
                },
                _ => {
                    let phase = Phase::Find { dir, next, target };
                    let request = request_for(&phase);
                    LoadStep::Pending(Loader { tasks, visited, frames, version, phase }, request)
                },
            },
            Phase::Resolve { base, rel, target } => match event {
                LoadEvent::Probed { path, kind } => match kind {
                    PathKind::Dir => {
                        let request = LoadRequest::Probe { base: path.clone(), name: taskfile_name(0) };
                        let loader = Loader { tasks, visited, frames, version, phase: Phase::Find { dir: path, next: 0, target } };
                        LoadStep::Pending(loader, request)
                    },
                    PathKind::File => enter_exec(tasks, visited, frames, version, path, target),
                    PathKind::Missing => advance_exec(tasks, visited, frames, version),
                },
                _ => {
                    let phase = Phase::Resolve { base, rel, target };
                    let request = request_for(&phase);
                    LoadStep::Pending(Loader { tasks, visited, frames, version, phase }, request)
                },
            },
            Phase::Canonicalize { path, target } => match event {
                LoadEvent::Canonical { path: canonical } => {
                    if contains_str(&visited, &canonical) {
                        advance_exec(tasks, visited, frames, version)
                    } else {
                        let mut visited = visited;
                        let ghost old_visited = visited.deep_view();
                        visited.push(canonical);
                        assert(visited.deep_view() =~= old_visited.push(canonical@));
                        let request = LoadRequest::Read { path: path.clone() };
                        let loader = Loader { tasks, visited, frames, version, phase: Phase::Read { path, target } };
                        LoadStep::Pending(loader, request)
                    }
                },
                _ => {
                    let phase = Phase::Canonicalize { path, target };
                    let request = request_for(&phase);
                    LoadStep::Pending(Loader { tasks, visited, frames, version, phase }, request)
                },
            },
            Phase::Read { path, target } => match event {
                LoadEvent::Read { dir, contents } => match contents {
                    FileContents::Unreadable(msg) => {
                        if frames.len() == 0 {
                            LoadStep::Finished(Err(LoadError::Io(msg)))
                        } else {
                            advance_exec(tasks, visited, frames, version)
                        }
                    },
                    FileContents::Malformed(msg) => {
                        fail_exec(tasks, visited, frames, version, msg, target.optional)
                    },
                    FileContents::Parsed(raw) => {
                        let RawTaskfile { version: file_version, includes, tasks: file_tasks } = raw;
                        let file_tasks = normalize_tasks(file_tasks);
                        let includes = normalize_includes(includes);
                        let mut tasks = tasks;
                        merge_tasks(&mut tasks, file_tasks, &target.prefix, &target.excludes);
                        let version = if frames.len() == 0 {
                            file_version
                        } else {
                            version
                        };
                        let base = match dir {
                            Some(d) => d,
                            None => {
                                let mut d = String::new();
                                crate::text::push_char(&mut d, '.');
                                d
                            },
                        };
                        let frame = Frame {
                            prefix: target.prefix,
                            base,
                            includes,
                            next: 0,
                            depth: target.depth,
                            optional: target.optional,
                        };
                        let mut frames = frames;
                        let ghost old_frames = frames@;
                        frames.push(frame);
                        proof {
                            assert(frames_model(frames@) =~= frames_model(old_frames).push(frame@));
                        }
                        advance_exec(tasks, visited, frames, version)
                    },
                },
                _ => {
                    let phase = Phase::Read { path, target };
                    let request = request_for(&phase);
                    LoadStep::Pending(Loader { tasks, visited, frames, version, phase }, request)
                },
            },
        }
    }
}

} // verus!
