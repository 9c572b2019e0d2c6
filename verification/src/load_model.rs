//! The meaning of loading a Taskfile with its includes, as a state machine
//! over mathematical values. `loader` runs it; each step waits for one
//! answer from the file system.
use vstd::prelude::*;
use crate::taskdef::{IncludeView, TaskDefView};
use crate::task_map::map_insert;

verus! {

/// Includes deeper than this are not followed (guards against pathological
/// or cyclic include graphs).
pub const MAX_INCLUDE_DEPTH: usize = 16;

/// The file names tried, in order, when looking for a Taskfile in a
/// directory.
pub open spec fn taskfile_names() -> Seq<Seq<char>> {
    seq![
        seq!['T', 'a', 's', 'k', 'f', 'i', 'l', 'e', '.', 'y', 'm', 'l'],
        seq!['T', 'a', 's', 'k', 'f', 'i', 'l', 'e', '.', 'y', 'a', 'm', 'l'],
        seq!['t', 'a', 's', 'k', 'f', 'i', 'l', 'e', '.', 'y', 'm', 'l'],
        seq!['t', 'a', 's', 'k', 'f', 'i', 'l', 'e', '.', 'y', 'a', 'm', 'l'],
    ]
}

pub open spec fn http_scheme() -> Seq<char> {
    seq!['h', 't', 't', 'p', ':', '/', '/']
}

pub open spec fn https_scheme() -> Seq<char> {
    seq!['h', 't', 't', 'p', 's', ':', '/', '/']
}

/// A location on another host; such includes are not followed.
pub open spec fn is_remote(rel: Seq<char>) -> bool {
    http_scheme().is_prefix_of(rel) || https_scheme().is_prefix_of(rel)
}

/// Where an include points, relative to the including file's directory:
/// its `taskfile`, else its `dir`; `None` when neither is set or the
/// location is remote.
pub open spec fn include_location(inc: IncludeView) -> Option<Seq<char>> {
    let rel = match inc.taskfile {
        Some(t) => Some(t),
        None => inc.dir,
    };
    match rel {
        Some(r) => if is_remote(r) {
            None
        } else {
            Some(r)
        },
        None => None,
    }
}

/// What is found at a path.
#[derive(PartialEq, Eq, Structural, Clone, Copy)]
pub enum PathKind {
    File,
    Dir,
    Missing,
}

/// Where the tasks of a file being loaded go.
pub struct TargetModel {
    /// Prepended to every task name and alias (`docs:` for an include
    /// named `docs`; nothing at the top level).
    pub prefix: Seq<char>,
    /// Task names of the file that are left out.
    pub excludes: Seq<Seq<char>>,
    /// Include nesting level (0 for the Taskfile found in the directory).
    pub depth: nat,
    /// Whether the include that names this file is `optional`.
    pub optional: bool,
}

/// A file whose tasks were merged and whose includes are being followed.
pub struct FrameModel {
    pub prefix: Seq<char>,
    /// The directory of the file; includes are relative to it.
    pub base: Seq<char>,
    pub includes: Seq<(Seq<char>, IncludeView)>,
    /// The next include to consider.
    pub next: nat,
    pub depth: nat,
    pub optional: bool,
}

/// What the loader waits for.
pub enum PhaseModel {
    /// Looking for a Taskfile in `dir`, trying `taskfile_names()[next]`.
    Find { dir: Seq<char>, next: nat, target: TargetModel },
    /// Asked what `rel` relative to `base` is (an include's location).
    Resolve { base: Seq<char>, rel: Seq<char>, target: TargetModel },
    /// Asked for the canonical form of `path`.
    Canonicalize { path: Seq<char>, target: TargetModel },
    /// Asked for the contents of `path`.
    Read { path: Seq<char>, target: TargetModel },
}

pub struct LoaderModel {
    /// The merged task table so far.
    pub tasks: Seq<(Seq<char>, TaskDefView)>,
    /// Canonical paths of the files already entered.
    pub visited: Seq<Seq<char>>,
    /// The chain of files whose includes are being followed; the last one
    /// is the innermost.
    pub frames: Seq<FrameModel>,
    /// The `version` of the top-level Taskfile, once read.
    pub version: Option<Seq<char>>,
    pub phase: PhaseModel,
}

/// A question for the file system.
pub enum RequestModel {
    /// What is at `name` joined onto `base`?
    Probe { base: Seq<char>, name: Seq<char> },
    /// What is the canonical form of `path`?
    Canonicalize { path: Seq<char> },
    /// What does the file at `path` hold?
    Read { path: Seq<char> },
}

/// A file's contents as far as loading is concerned.
pub enum ContentsModel {
    /// The file could not be read.
    Unreadable(Seq<char>),
    /// The file is not a well-formed Taskfile.
    Malformed(Seq<char>),
    /// The file's version, includes and tasks, normalised, in order.
    Parsed {
        version: Option<Seq<char>>,
        includes: Seq<(Seq<char>, IncludeView)>,
        tasks: Seq<(Seq<char>, TaskDefView)>,
    },
}

/// An answer from the file system.
pub enum EventModel {
    /// The joined path of a probe and what is there.
    Probed { path: Seq<char>, kind: PathKind },
    /// The canonical form of the path asked for.
    Canonical { path: Seq<char> },
    /// The directory of the file asked for (if it has one) and its contents.
    Read { dir: Option<Seq<char>>, contents: ContentsModel },
}

pub enum LoadErrorModel {
    NotFound,
    Io(Seq<char>),
    Parse(Seq<char>),
}

pub struct TaskfileModel {
    pub version: Option<Seq<char>>,
    /// Includes not yet followed: none, once a load has finished.
    pub includes: Seq<(Seq<char>, IncludeView)>,
    pub tasks: Seq<(Seq<char>, TaskDefView)>,
}

pub enum StepModel {
    Pending(LoaderModel, RequestModel),
    Finished(Result<TaskfileModel, LoadErrorModel>),
}

/// The task definition with every alias prefixed.
pub open spec fn namespaced(def: TaskDefView, prefix: Seq<char>) -> TaskDefView {
    TaskDefView { aliases: def.aliases.map_values(|a: Seq<char>| prefix + a), ..def }
}

/// Whether a file's task is dropped rather than merged.
pub open spec fn skipped(name: Seq<char>, def: TaskDefView, excludes: Seq<Seq<char>>) -> bool {
    def.internal || excludes.contains(name)
}

/// The table after merging a file's tasks in order: internal and excluded
/// tasks are dropped, the others are inserted under `prefix` + name with
/// their aliases prefixed too.
pub open spec fn merge_spec(
    m: Seq<(Seq<char>, TaskDefView)>,
    entries: Seq<(Seq<char>, TaskDefView)>,
    prefix: Seq<char>,
    excludes: Seq<Seq<char>>,
) -> Seq<(Seq<char>, TaskDefView)>
    decreases entries.len(),
{
    if entries.len() == 0 {
        m
    } else {
        let before = merge_spec(m, entries.drop_last(), prefix, excludes);
        let (name, def) = entries.last();
        if skipped(name, def, excludes) {
            before
        } else {
            map_insert(before, prefix + name, namespaced(def, prefix))
        }
    }
}

/// Where the tasks of an include's file go.
pub open spec fn nested_target(f: FrameModel, namespace: Seq<char>, inc: IncludeView) -> TargetModel {
    if inc.flatten {
        TargetModel {
            prefix: f.prefix,
            excludes: inc.excludes,
            depth: f.depth + 1,
            optional: inc.optional,
        }
    } else {
        TargetModel {
            prefix: f.prefix + namespace + seq![':'],
            excludes: Seq::empty(),
            depth: f.depth + 1,
            optional: inc.optional,
        }
    }
}

pub open spec fn remaining_includes(frames: Seq<FrameModel>) -> int {
    if frames.len() > 0 {
        frames.last().includes.len() - frames.last().next
    } else {
        0
    }
}

/// Move on to the next include to follow, finishing files whose includes
/// are exhausted; when the top-level file is finished, loading succeeds.
pub open spec fn advance(
    tasks: Seq<(Seq<char>, TaskDefView)>,
    visited: Seq<Seq<char>>,
    frames: Seq<FrameModel>,
    version: Option<Seq<char>>,
) -> StepModel
    decreases frames.len(), remaining_includes(frames),
{
    if frames.len() == 0 {
        StepModel::Finished(Ok(TaskfileModel { version, includes: Seq::empty(), tasks }))
    } else {
        let f = frames.last();
        if f.next < f.includes.len() {
            let (namespace, inc) = f.includes[f.next as int];
            let moved = frames.update(frames.len() - 1, FrameModel { next: f.next + 1, ..f });
            if inc.internal || include_location(inc) is None {
                advance(tasks, visited, moved, version)
            } else {
                let rel = include_location(inc)->0;
                StepModel::Pending(
                    LoaderModel {
                        tasks,
                        visited,
                        frames: moved,
                        version,
                        phase: PhaseModel::Resolve {
                            base: f.base,
                            rel,
                            target: nested_target(f, namespace, inc),
                        },
                    },
                    RequestModel::Probe { base: f.base, name: rel },
                )
            }
        } else {
            advance(tasks, visited, frames.drop_last(), version)
        }
    }
}

/// A file failed to parse. If the include that named it is optional the
/// including file goes on; otherwise the including file fails in turn.
pub open spec fn fail(
    tasks: Seq<(Seq<char>, TaskDefView)>,
    visited: Seq<Seq<char>>,
    frames: Seq<FrameModel>,
    version: Option<Seq<char>>,
    msg: Seq<char>,
    optional: bool,
) -> StepModel
    decreases frames.len(),
{
    if optional {
        advance(tasks, visited, frames, version)
    } else if frames.len() == 0 {
        StepModel::Finished(Err(LoadErrorModel::Parse(msg)))
    } else {
        fail(tasks, visited, frames.drop_last(), version, msg, frames.last().optional)
    }
}

/// Start loading the file at `path`: too deep a file is skipped, otherwise
/// its canonical path is asked for.
pub open spec fn enter(
    tasks: Seq<(Seq<char>, TaskDefView)>,
    visited: Seq<Seq<char>>,
    frames: Seq<FrameModel>,
    version: Option<Seq<char>>,
    path: Seq<char>,
    target: TargetModel,
) -> StepModel {
    if target.depth > MAX_INCLUDE_DEPTH {
        advance(tasks, visited, frames, version)
    } else {
        StepModel::Pending(
            LoaderModel {
                tasks,
                visited,
                frames,
                version,
                phase: PhaseModel::Canonicalize { path, target },
            },
            RequestModel::Canonicalize { path },
        )
    }
}

/// The question the loader is waiting on.
pub open spec fn pending_request(m: LoaderModel) -> RequestModel {
    match m.phase {
        PhaseModel::Find { dir, next, .. } => RequestModel::Probe {
            base: dir,
            name: taskfile_names()[next as int],
        },
        PhaseModel::Resolve { base, rel, .. } => RequestModel::Probe { base, name: rel },
        PhaseModel::Canonicalize { path, .. } => RequestModel::Canonicalize { path },
        PhaseModel::Read { path, .. } => RequestModel::Read { path },
    }
}

pub open spec fn root_target() -> TargetModel {
    TargetModel { prefix: Seq::empty(), excludes: Seq::empty(), depth: 0, optional: false }
}

/// Where loading from `dir` starts: looking for its Taskfile.
pub open spec fn start_model(dir: Seq<char>) -> LoaderModel {
    LoaderModel {
        tasks: Seq::empty(),
        visited: Seq::empty(),
        frames: Seq::empty(),
        version: None,
        phase: PhaseModel::Find { dir, next: 0, target: root_target() },
    }
}

/// One step of loading: what the loader does with an answer. An answer of
/// the wrong kind is ignored and the question asked again.
pub open spec fn step_model(m: LoaderModel, e: EventModel) -> StepModel {
    match (m.phase, e) {
        (PhaseModel::Find { dir, next, target }, EventModel::Probed { path, kind }) => {
            if kind == PathKind::File {
                enter(m.tasks, m.visited, m.frames, m.version, path, target)
            } else if next + 1 < taskfile_names().len() {
                let m2 = LoaderModel { phase: PhaseModel::Find { dir, next: next + 1, target }, ..m };
                StepModel::Pending(m2, pending_request(m2))
            } else if m.frames.len() == 0 {
                StepModel::Finished(Err(LoadErrorModel::NotFound))
            } else {
                advance(m.tasks, m.visited, m.frames, m.version)
            }
        },
        (PhaseModel::Resolve { target, .. }, EventModel::Probed { path, kind }) => {
            match kind {
                PathKind::Dir => {
                    let m2 = LoaderModel { phase: PhaseModel::Find { dir: path, next: 0, target }, ..m };
                    StepModel::Pending(m2, pending_request(m2))
                },
                PathKind::File => enter(m.tasks, m.visited, m.frames, m.version, path, target),
                PathKind::Missing => advance(m.tasks, m.visited, m.frames, m.version),
            }
        },
        (PhaseModel::Canonicalize { path, target }, EventModel::Canonical { path: canonical }) => {
            if m.visited.contains(canonical) {
                advance(m.tasks, m.visited, m.frames, m.version)
            } else {
                StepModel::Pending(
                    LoaderModel {
                        visited: m.visited.push(canonical),
                        phase: PhaseModel::Read { path, target },
                        ..m
                    },
                    RequestModel::Read { path },
                )
            }
        },
        (PhaseModel::Read { path, target }, EventModel::Read { dir, contents }) => {
            match contents {
                ContentsModel::Unreadable(msg) => if m.frames.len() == 0 {
                    StepModel::Finished(Err(LoadErrorModel::Io(msg)))
                } else {
                    advance(m.tasks, m.visited, m.frames, m.version)
                },
                ContentsModel::Malformed(msg) => fail(
                    m.tasks,
                    m.visited,
                    m.frames,
                    m.version,
                    msg,
                    target.optional,
                ),
                ContentsModel::Parsed { version, includes, tasks } => {
                    let merged = merge_spec(m.tasks, tasks, target.prefix, target.excludes);
                    let top_version = if m.frames.len() == 0 {
                        version
                    } else {
                        m.version
                    };
                    let base = match dir {
                        Some(d) => d,
                        None => seq!['.'],
                    };
                    let frame = FrameModel {
                        prefix: target.prefix,
                        base,
                        includes,
                        next: 0,
                        depth: target.depth,
                        optional: target.optional,
                    };
                    advance(merged, m.visited, m.frames.push(frame), top_version)
                },
            }
        },
        _ => StepModel::Pending(m, pending_request(m)),
    }
}

} // verus!
