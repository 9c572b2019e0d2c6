//! What loading means, stated the direct way: find the Taskfile, merge
//! its tasks, and recursively merge each include in order. The loader's
//! state machine is proved to reach exactly this result when every request
//! is answered from the same file system.
use vstd::prelude::*;
use crate::taskdef::{IncludeView, TaskDefView};
use crate::load_laws::{lemma_start_ok, lemma_step_ok, lemma_taskfile_names, step_ok, table_ok};
use crate::load_model::{
    ContentsModel, EventModel, FrameModel, LoadErrorModel, LoaderModel, MAX_INCLUDE_DEPTH,
    PathKind, PhaseModel, RequestModel, StepModel, TargetModel, TaskfileModel, advance, enter,
    fail, include_location, merge_spec, nested_target, pending_request, root_target, start_model,
    step_model, taskfile_names,
};

verus! {

/// A file system, as far as loading looks at it.
pub struct FsModel {
    /// What is at a path.
    pub kind: spec_fn(Seq<char>) -> PathKind,
    /// A name joined onto a base path.
    pub join: spec_fn(Seq<char>, Seq<char>) -> Seq<char>,
    /// The canonical form of a path.
    pub canonical: spec_fn(Seq<char>) -> Seq<char>,
    /// The directory of a path, if it has one.
    pub parent: spec_fn(Seq<char>) -> Option<Seq<char>>,
    /// The contents of the file at a path.
    pub contents: spec_fn(Seq<char>) -> ContentsModel,
}

/// The file system's answer to a request.
pub open spec fn answer(fs: FsModel, r: RequestModel) -> EventModel {
    match r {
        RequestModel::Probe { base, name } => {
            let p = (fs.join)(base, name);
            EventModel::Probed { path: p, kind: (fs.kind)(p) }
        },
        RequestModel::Canonicalize { path } => EventModel::Canonical { path: (fs.canonical)(path) },
        RequestModel::Read { path } => EventModel::Read {
            dir: (fs.parent)(path),
            contents: (fs.contents)(path),
        },
    }
}

/// The first candidate Taskfile, from `taskfile_names()[i]` on, that is a
/// file in `dir`.
pub open spec fn find_from(fs: FsModel, dir: Seq<char>, i: nat) -> Option<Seq<char>>
    decreases 4 - i,
{
    if i >= 4 {
        None
    } else {
        let p = (fs.join)(dir, taskfile_names()[i as int]);
        if (fs.kind)(p) == PathKind::File {
            Some(p)
        } else {
            find_from(fs, dir, i + 1)
        }
    }
}

/// The file an include names, relative to `base`: a directory's
/// Taskfile, or the file itself; `None` when there is none.
pub open spec fn resolve_spec(fs: FsModel, base: Seq<char>, inc: IncludeView) -> Option<Seq<char>> {
    match include_location(inc) {
        None => None,
        Some(rel) => {
            let j = (fs.join)(base, rel);
            match (fs.kind)(j) {
                PathKind::Dir => find_from(fs, j, 0),
                PathKind::File => Some(j),
                PathKind::Missing => None,
            }
        },
    }
}

/// How merging one file ended.
pub enum FileOutcome {
    /// Merged (or skipped as too deep or already seen); the file's version.
    Done(Option<Seq<char>>),
    /// The file could not be read.
    Unreadable(Seq<char>),
    /// The file, or a required include of it, did not parse.
    Malformed(Seq<char>),
}

pub open spec fn depth_measure(depth: nat) -> int {
    MAX_INCLUDE_DEPTH + 1 - depth
}

/// Merge the file at `path` into `tasks`: skip it when too deep or already
/// seen, else record it, merge its tasks and then its includes in order.
pub open spec fn merge_file_spec(
    fs: FsModel,
    path: Seq<char>,
    target: TargetModel,
    tasks: Seq<(Seq<char>, TaskDefView)>,
    visited: Seq<Seq<char>>,
) -> (FileOutcome, Seq<(Seq<char>, TaskDefView)>, Seq<Seq<char>>)
    decreases depth_measure(target.depth), 1int, 0int,
{
    if target.depth > MAX_INCLUDE_DEPTH {
        (FileOutcome::Done(None), tasks, visited)
    } else {
        let c = (fs.canonical)(path);
        if visited.contains(c) {
            (FileOutcome::Done(None), tasks, visited)
        } else {
            let seen = visited.push(c);
            match (fs.contents)(path) {
                ContentsModel::Unreadable(m) => (FileOutcome::Unreadable(m), tasks, seen),
                ContentsModel::Malformed(m) => (FileOutcome::Malformed(m), tasks, seen),
                ContentsModel::Parsed { version, includes, tasks: file_tasks } => {
                    let merged = merge_spec(tasks, file_tasks, target.prefix, target.excludes);
                    let base = match (fs.parent)(path) {
                        Some(d) => d,
                        None => seq!['.'],
                    };
                    let frame = FrameModel {
                        prefix: target.prefix,
                        base,
                        includes,
                        next: 0,
                        depth: target.depth,
                        optional: target.optional,
                    };
                    let (r, t, v) = merge_includes_spec(fs, frame, merged, seen);
                    match r {
                        None => (FileOutcome::Done(version), t, v),
                        Some(e) => (FileOutcome::Malformed(e), t, v),
                    }
                },
            }
        }
    }
}

/// Merge the includes of a file from `f.next` on. An include that cannot
/// be read, or cannot be found, is passed over; one that does not parse
/// fails the file unless it is optional.
pub open spec fn merge_includes_spec(
    fs: FsModel,
    f: FrameModel,
    tasks: Seq<(Seq<char>, TaskDefView)>,
    visited: Seq<Seq<char>>,
) -> (Option<Seq<char>>, Seq<(Seq<char>, TaskDefView)>, Seq<Seq<char>>)
    decreases depth_measure(f.depth), 0int, f.includes.len() - f.next,
{
    if f.depth > MAX_INCLUDE_DEPTH || f.next >= f.includes.len() {
        (None, tasks, visited)
    } else {
        let (namespace, inc) = f.includes[f.next as int];
        let f2 = FrameModel { next: f.next + 1, ..f };
        if inc.internal {
            merge_includes_spec(fs, f2, tasks, visited)
        } else {
            match resolve_spec(fs, f.base, inc) {
                None => merge_includes_spec(fs, f2, tasks, visited),
                Some(p) => {
                    let (o, t1, v1) = merge_file_spec(
                        fs,
                        p,
                        nested_target(f, namespace, inc),
                        tasks,
                        visited,
                    );
                    match o {
                        FileOutcome::Malformed(e) => if !inc.optional {
                            (Some(e), t1, v1)
                        } else {
                            merge_includes_spec(fs, f2, t1, v1)
                        },
                        _ => merge_includes_spec(fs, f2, t1, v1),
                    }
                },
            }
        }
    }
}

/// Loading the Taskfile in `dir` with everything it includes.
pub open spec fn load_spec(fs: FsModel, dir: Seq<char>) -> Result<TaskfileModel, LoadErrorModel> {
    match find_from(fs, dir, 0) {
        None => Err(LoadErrorModel::NotFound),
        Some(p) => {
            let (o, t, _v) = merge_file_spec(fs, p, root_target(), Seq::empty(), Seq::empty());
            match o {
                FileOutcome::Done(version) => Ok(TaskfileModel { version, includes: Seq::empty(), tasks: t }),
                FileOutcome::Unreadable(m) => Err(LoadErrorModel::Io(m)),
                FileOutcome::Malformed(m) => Err(LoadErrorModel::Parse(m)),
            }
        },
    }
}

/// The loader after `n` steps, each request answered by `fs`.
pub open spec fn steps(fs: FsModel, s: StepModel, n: nat) -> StepModel
    decreases n,
{
    if n == 0 {
        s
    } else {
        match s {
            StepModel::Pending(m, _) => steps(
                fs,
                step_model(m, answer(fs, pending_request(m))),
                (n - 1) as nat,
            ),
            StepModel::Finished(_) => s,
        }
    }
}

/// Running the loader from `s1` against `fs` gets to `s2`.
pub open spec fn reaches(fs: FsModel, s1: StepModel, s2: StepModel) -> bool {
    exists|n: nat| steps(fs, s1, n) == s2
}

proof fn lemma_steps_add(fs: FsModel, s: StepModel, a: nat, b: nat)
    ensures
        steps(fs, s, a + b) == steps(fs, steps(fs, s, a), b),
    decreases a,
{
    if a > 0 {
        match s {
            StepModel::Pending(m, _) => {
                lemma_steps_add(fs, step_model(m, answer(fs, pending_request(m))), (a - 1) as nat, b);
                assert((a + b - 1) as nat == ((a - 1) as nat + b) as nat);
            },
            StepModel::Finished(_) => {
                lemma_steps_finished(fs, s, b);
                lemma_steps_finished(fs, s, a + b);
            },
        }
    }
}

proof fn lemma_steps_finished(fs: FsModel, s: StepModel, n: nat)
    requires
        s is Finished,
    ensures
        steps(fs, s, n) == s,
    decreases n,
{
}

proof fn lemma_reaches_trans(fs: FsModel, s1: StepModel, s2: StepModel, s3: StepModel)
    requires
        reaches(fs, s1, s2),
        reaches(fs, s2, s3),
    ensures
        reaches(fs, s1, s3),
{
    let a = choose|n: nat| steps(fs, s1, n) == s2;
    let b = choose|n: nat| steps(fs, s2, n) == s3;
    lemma_steps_add(fs, s1, a, b);
    assert(steps(fs, s1, a + b) == s3);
}

proof fn lemma_reaches_refl(fs: FsModel, s: StepModel)
    ensures
        reaches(fs, s, s),
{
    assert(steps(fs, s, 0) == s);
}

/// One step, then on.
proof fn lemma_reaches_step(fs: FsModel, m: LoaderModel, r: RequestModel, s2: StepModel)
    requires
        reaches(fs, step_model(m, answer(fs, pending_request(m))), s2),
    ensures
        reaches(fs, StepModel::Pending(m, r), s2),
{
    let n = choose|n: nat| steps(fs, step_model(m, answer(fs, pending_request(m))), n) == s2;
    assert(steps(fs, StepModel::Pending(m, r), n + 1) == s2);
}

/// What the loader does once a file has been dealt with.
pub open spec fn after_file(
    o: FileOutcome,
    tasks: Seq<(Seq<char>, TaskDefView)>,
    visited: Seq<Seq<char>>,
    frames: Seq<FrameModel>,
    version: Option<Seq<char>>,
    optional: bool,
) -> StepModel {
    match o {
        FileOutcome::Done(v) => advance(
            tasks,
            visited,
            frames,
            if frames.len() == 0 {
                v
            } else {
                version
            },
        ),
        FileOutcome::Unreadable(m) => if frames.len() == 0 {
            StepModel::Finished(Err(LoadErrorModel::Io(m)))
        } else {
            advance(tasks, visited, frames, version)
        },
        FileOutcome::Malformed(m) => fail(tasks, visited, frames, version, m, optional),
    }
}

/// What the loader does once a file's includes have been dealt with.
pub open spec fn after_frame(
    r: Option<Seq<char>>,
    tasks: Seq<(Seq<char>, TaskDefView)>,
    visited: Seq<Seq<char>>,
    frames: Seq<FrameModel>,
    version: Option<Seq<char>>,
    optional: bool,
) -> StepModel {
    match r {
        None => advance(tasks, visited, frames, version),
        Some(e) => fail(tasks, visited, frames, version, e, optional),
    }
}

/// Files being followed are nested one deeper each.
pub open spec fn chain_ok(frames: Seq<FrameModel>) -> bool {
    forall|i: int|
        0 <= i < frames.len() ==> (#[trigger] frames[i]).depth == i && frames[i].next
            <= frames[i].includes.len()
}

proof fn lemma_find(
    fs: FsModel,
    dir: Seq<char>,
    i: nat,
    target: TargetModel,
    tasks: Seq<(Seq<char>, TaskDefView)>,
    visited: Seq<Seq<char>>,
    frames: Seq<FrameModel>,
    version: Option<Seq<char>>,
)
    requires
        i < 4,
    ensures
        ({
            let m = LoaderModel {
                tasks,
                visited,
                frames,
                version,
                phase: PhaseModel::Find { dir, next: i, target },
            };
            reaches(
                fs,
                StepModel::Pending(m, pending_request(m)),
                match find_from(fs, dir, i) {
                    Some(p) => enter(tasks, visited, frames, version, p, target),
                    None => if frames.len() == 0 {
                        StepModel::Finished(Err(LoadErrorModel::NotFound))
                    } else {
                        advance(tasks, visited, frames, version)
                    },
                },
            )
        }),
    decreases 4 - i,
{
    let m = LoaderModel {
        tasks,
        visited,
        frames,
        version,
        phase: PhaseModel::Find { dir, next: i, target },
    };
    let p = (fs.join)(dir, taskfile_names()[i as int]);
    let next = step_model(m, answer(fs, pending_request(m)));
    if (fs.kind)(p) == PathKind::File {
        lemma_reaches_refl(fs, next);
    } else if i + 1 < 4 {
        lemma_find(fs, dir, i + 1, target, tasks, visited, frames, version);
    } else {
        lemma_reaches_refl(fs, next);
    }
    lemma_reaches_step(fs, m, pending_request(m), match find_from(fs, dir, i) {
        Some(p) => enter(tasks, visited, frames, version, p, target),
        None => if frames.len() == 0 {
            StepModel::Finished(Err(LoadErrorModel::NotFound))
        } else {
            advance(tasks, visited, frames, version)
        },
    });
}

proof fn lemma_fail_root(
    tasks: Seq<(Seq<char>, TaskDefView)>,
    visited: Seq<Seq<char>>,
    frames: Seq<FrameModel>,
    v1: Option<Seq<char>>,
    v2: Option<Seq<char>>,
    e: Seq<char>,
)
    requires
        frames.len() == 0,
    ensures
        fail(tasks, visited, frames, v1, e, false) == fail(tasks, visited, frames, v2, e, false),
{
}

/// Entering a file ends where the direct definition says: the loader
/// reaches what follows the file's outcome.
proof fn lemma_file(
    fs: FsModel,
    path: Seq<char>,
    target: TargetModel,
    tasks: Seq<(Seq<char>, TaskDefView)>,
    visited: Seq<Seq<char>>,
    frames: Seq<FrameModel>,
    version: Option<Seq<char>>,
)
    requires
        target.depth == frames.len(),
        target.depth <= MAX_INCLUDE_DEPTH + 1,
        chain_ok(frames),
        frames.len() == 0 ==> version is None && !target.optional,
    ensures
        ({
            let (o, t2, v2) = merge_file_spec(fs, path, target, tasks, visited);
            reaches(
                fs,
                enter(tasks, visited, frames, version, path, target),
                after_file(o, t2, v2, frames, version, target.optional),
            )
        }),
    decreases depth_measure(target.depth), 1int, 0int,
{
    let (o, t2, v2) = merge_file_spec(fs, path, target, tasks, visited);
    let goal = after_file(o, t2, v2, frames, version, target.optional);
    if target.depth > MAX_INCLUDE_DEPTH {
        lemma_reaches_refl(fs, goal);
    } else {
        let m = LoaderModel {
            tasks,
            visited,
            frames,
            version,
            phase: PhaseModel::Canonicalize { path, target },
        };
        let c = (fs.canonical)(path);
        if visited.contains(c) {
            lemma_reaches_refl(fs, goal);
            lemma_reaches_step(fs, m, RequestModel::Canonicalize { path }, goal);
        } else {
            let seen = visited.push(c);
            let m2 = LoaderModel { visited: seen, phase: PhaseModel::Read { path, target }, ..m };
            assert(step_model(m, answer(fs, pending_request(m))) == StepModel::Pending(
                m2,
                RequestModel::Read { path },
            ));
            match (fs.contents)(path) {
                ContentsModel::Unreadable(msg) => {
                    lemma_reaches_refl(fs, goal);
                },
                ContentsModel::Malformed(msg) => {
                    lemma_reaches_refl(fs, goal);
                },
                ContentsModel::Parsed { version: fv, includes, tasks: file_tasks } => {
                    let merged = merge_spec(tasks, file_tasks, target.prefix, target.excludes);
                    let base = match (fs.parent)(path) {
                        Some(d) => d,
                        None => seq!['.'],
                    };
                    let frame = FrameModel {
                        prefix: target.prefix,
                        base,
                        includes,
                        next: 0,
                        depth: target.depth,
                        optional: target.optional,
                    };
                    let top_version = if frames.len() == 0 {
                        fv
                    } else {
                        version
                    };
                    let (r, t3, v3) = merge_includes_spec(fs, frame, merged, seen);
                    lemma_includes(fs, frame, merged, seen, frames, top_version);
                    if let Some(e) = r {
                        if frames.len() == 0 {
                            lemma_fail_root(t3, v3, frames, top_version, version, e);
                        }
                    }
                    assert(after_frame(r, t3, v3, frames, top_version, target.optional) == goal);
                },
            }
            lemma_reaches_step(fs, m2, RequestModel::Read { path }, goal);
            lemma_reaches_step(fs, m, RequestModel::Canonicalize { path }, goal);
        }
    }
}

/// Following a file's includes from `f.next` on ends where the direct
/// definition says.
proof fn lemma_includes(
    fs: FsModel,
    f: FrameModel,
    tasks: Seq<(Seq<char>, TaskDefView)>,
    visited: Seq<Seq<char>>,
    frames: Seq<FrameModel>,
    version: Option<Seq<char>>,
)
    requires
        f.depth == frames.len(),
        f.depth <= MAX_INCLUDE_DEPTH,
        f.next <= f.includes.len(),
        chain_ok(frames),
    ensures
        ({
            let (r, t2, v2) = merge_includes_spec(fs, f, tasks, visited);
            reaches(
                fs,
                advance(tasks, visited, frames.push(f), version),
                after_frame(r, t2, v2, frames, version, f.optional),
            )
        }),
    decreases depth_measure(f.depth), 0int, f.includes.len() - f.next,
{
    let (r, t2, v2) = merge_includes_spec(fs, f, tasks, visited);
    let goal = after_frame(r, t2, v2, frames, version, f.optional);
    let stack = frames.push(f);
    assert(stack.drop_last() =~= frames);
    assert(stack.last() == f);
    if f.next >= f.includes.len() {
        lemma_reaches_refl(fs, goal);
    } else {
        let (namespace, inc) = f.includes[f.next as int];
        let f2 = FrameModel { next: f.next + 1, ..f };
        let moved = stack.update(stack.len() - 1, f2);
        assert(moved =~= frames.push(f2));
        assert(chain_ok(frames.push(f2))) by {
            assert forall|i: int| 0 <= i < frames.push(f2).len() implies (#[trigger] frames.push(f2)[i]).depth == i
                && frames.push(f2)[i].next <= frames.push(f2)[i].includes.len() by {
                if i < frames.len() {
                    assert(frames.push(f2)[i] == frames[i]);
                }
            }
        }
        if inc.internal || include_location(inc) is None {
            lemma_includes(fs, f2, tasks, visited, frames, version);
        } else {
            let rel = include_location(inc)->0;
            let nt = nested_target(f, namespace, inc);
            let m = LoaderModel {
                tasks,
                visited,
                frames: moved,
                version,
                phase: PhaseModel::Resolve { base: f.base, rel, target: nt },
            };
            assert(advance(tasks, visited, stack, version) == StepModel::Pending(
                m,
                RequestModel::Probe { base: f.base, name: rel },
            ));
            let j = (fs.join)(f.base, rel);
            let after_child = match resolve_spec(fs, f.base, inc) {
                Some(p) => enter(tasks, visited, moved, version, p, nt),
                None => advance(tasks, visited, moved, version),
            };
            match (fs.kind)(j) {
                PathKind::Dir => {
                    lemma_find(fs, j, 0, nt, tasks, visited, moved, version);
                },
                _ => {
                    lemma_reaches_refl(fs, after_child);
                },
            }
            lemma_reaches_step(
                fs,
                m,
                RequestModel::Probe { base: f.base, name: rel },
                after_child,
            );
            match resolve_spec(fs, f.base, inc) {
                None => {
                    lemma_includes(fs, f2, tasks, visited, frames, version);
                },
                Some(p) => {
                    lemma_file(fs, p, nt, tasks, visited, moved, version);
                    let (o, t1, v1) = merge_file_spec(fs, p, nt, tasks, visited);
                    lemma_includes(fs, f2, t1, v1, frames, version);
                    match o {
                        FileOutcome::Malformed(e) => {
                            if !inc.optional {
                                assert(moved.drop_last() =~= frames);
                                assert(fail(t1, v1, moved, version, e, false) == fail(
                                    t1,
                                    v1,
                                    frames,
                                    version,
                                    e,
                                    f.optional,
                                ));
                                lemma_reaches_refl(fs, goal);
                            }
                        },
                        _ => {},
                    }
                    lemma_reaches_trans(
                        fs,
                        after_child,
                        after_file(o, t1, v1, moved, version, inc.optional),
                        goal,
                    );
                },
            }
            lemma_reaches_trans(fs, advance(tasks, visited, stack, version), after_child, goal);
        }
    }
}

/// Loading from `dir`, with every request answered by the same file
/// system, finishes with exactly what the direct definition gives: the
/// Taskfile found there, its tasks and those of its includes merged in
/// order and namespaced, or the error that stops it.
pub proof fn lemma_load_follows_includes(fs: FsModel, dir: Seq<char>)
    ensures
        reaches(
            fs,
            StepModel::Pending(start_model(dir), pending_request(start_model(dir))),
            StepModel::Finished(load_spec(fs, dir)),
        ),
{
    let empty_tasks: Seq<(Seq<char>, TaskDefView)> = Seq::empty();
    let empty_visited: Seq<Seq<char>> = Seq::empty();
    let no_frames: Seq<FrameModel> = Seq::empty();
    lemma_find(fs, dir, 0, root_target(), empty_tasks, empty_visited, no_frames, None);
    assert(start_model(dir) == LoaderModel {
        tasks: empty_tasks,
        visited: empty_visited,
        frames: no_frames,
        version: None,
        phase: PhaseModel::Find { dir, next: 0, target: root_target() },
    });
    match find_from(fs, dir, 0) {
        None => {},
        Some(p) => {
            lemma_file(fs, p, root_target(), empty_tasks, empty_visited, no_frames, None);
            let (o, t, v) = merge_file_spec(fs, p, root_target(), empty_tasks, empty_visited);
            assert(after_file(o, t, v, no_frames, None, false) == StepModel::Finished(
                load_spec(fs, dir),
            ));
            lemma_reaches_trans(
                fs,
                StepModel::Pending(start_model(dir), pending_request(start_model(dir))),
                enter(empty_tasks, empty_visited, no_frames, None, p, root_target()),
                StepModel::Finished(load_spec(fs, dir)),
            );
        },
    }
}

proof fn lemma_steps_ok(fs: FsModel, s: StepModel, n: nat)
    requires
        step_ok(s),
    ensures
        step_ok(steps(fs, s, n)),
    decreases n,
{
    if n > 0 {
        if let StepModel::Pending(m, _) = s {
            lemma_step_ok(m, answer(fs, pending_request(m)));
            lemma_steps_ok(fs, step_model(m, answer(fs, pending_request(m))), (n - 1) as nat);
        }
    }
}

/// Whatever the file system holds, a successful load lists tasks with
/// distinct names and no internal task, and every state on the way is
/// well-formed.
pub proof fn lemma_load_table_ok(fs: FsModel, dir: Seq<char>)
    ensures
        load_spec(fs, dir) matches Ok(t) ==> table_ok(t.tasks),
        forall|n: nat|
            step_ok(
                #[trigger] steps(
                    fs,
                    StepModel::Pending(start_model(dir), pending_request(start_model(dir))),
                    n,
                ),
            ),
{
    let start = StepModel::Pending(start_model(dir), pending_request(start_model(dir)));
    lemma_start_ok(dir);
    assert forall|n: nat| step_ok(#[trigger] steps(fs, start, n)) by {
        lemma_steps_ok(fs, start, n);
    }
    lemma_load_follows_includes(fs, dir);
    let n = choose|n: nat| steps(fs, start, n) == StepModel::Finished(load_spec(fs, dir));
    assert(step_ok(steps(fs, start, n)));
}
/// The names a Taskfile goes by, as they are written.
pub open spec fn taskfile_file_names() -> Seq<Seq<char>> {
    seq!["Taskfile.yml"@, "Taskfile.yaml"@, "taskfile.yml"@, "taskfile.yaml"@]
}

/// A directory's Taskfile is the first of `Taskfile.yml`, `Taskfile.yaml`,
/// `taskfile.yml`, `taskfile.yaml` that is a file there; when none is,
/// loading from the directory fails with `NotFound`.
pub proof fn lemma_finds_first_taskfile(fs: FsModel, dir: Seq<char>, k: int)
    requires
        0 <= k <= 4,
        forall|j: int| 0 <= j < k ==> (fs.kind)((fs.join)(dir, #[trigger] taskfile_file_names()[j])) != PathKind::File,
    ensures
        k < 4 && (fs.kind)((fs.join)(dir, taskfile_file_names()[k])) == PathKind::File ==> find_from(fs, dir, 0)
            == Some((fs.join)(dir, taskfile_file_names()[k])),
        k == 4 ==> find_from(fs, dir, 0) is None && load_spec(fs, dir) == Err::<TaskfileModel, LoadErrorModel>(
            LoadErrorModel::NotFound,
        ),
{
    lemma_taskfile_names();
    let names = taskfile_file_names();
    assert(taskfile_names() == names);
    let n0 = (fs.kind)((fs.join)(dir, names[0])) == PathKind::File;
    let n1 = (fs.kind)((fs.join)(dir, names[1])) == PathKind::File;
    let n2 = (fs.kind)((fs.join)(dir, names[2])) == PathKind::File;
    let n3 = (fs.kind)((fs.join)(dir, names[3])) == PathKind::File;
    assert(k > 0 ==> !n0);
    assert(k > 1 ==> !n1);
    assert(k > 2 ==> !n2);
    assert(k > 3 ==> !n3);
    assert(find_from(fs, dir, 4) is None);
    assert(find_from(fs, dir, 3) == if n3 { Some((fs.join)(dir, names[3])) } else { None::<Seq<char>> });
    assert(find_from(fs, dir, 2) == if n2 { Some((fs.join)(dir, names[2])) } else { find_from(fs, dir, 3) });
    assert(find_from(fs, dir, 1) == if n1 { Some((fs.join)(dir, names[1])) } else { find_from(fs, dir, 2) });
    assert(find_from(fs, dir, 0) == if n0 { Some((fs.join)(dir, names[0])) } else { find_from(fs, dir, 1) });
}

} // verus!
