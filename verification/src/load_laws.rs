//! Properties that every load keeps, proved over `load_model`.
use vstd::prelude::*;
use crate::taskdef::TaskDefView;
use crate::task_map::{map_insert, unique_keys, has_key, lemma_insert_unique, lemma_insert_existing};
use crate::load_model::{
    EventModel, FrameModel, taskfile_names, LoaderModel, MAX_INCLUDE_DEPTH, PhaseModel, RequestModel, StepModel,
    TargetModel, ContentsModel, advance, fail, merge_spec, namespaced, skipped, step_model,
    start_model,
};

verus! {

/// A task table as loading keeps it: names are distinct and no task is
/// internal.
pub open spec fn table_ok(t: Seq<(Seq<char>, TaskDefView)>) -> bool {
    &&& unique_keys(t)
    &&& forall|i: int| 0 <= i < t.len() ==> !(#[trigger] t[i]).1.internal
}

/// The chain of files being followed: the `i`th is nested `i` deep, and
/// there are never more than `MAX_INCLUDE_DEPTH + 1` of them.
pub open spec fn frames_ok(frames: Seq<FrameModel>) -> bool {
    &&& frames.len() <= MAX_INCLUDE_DEPTH + 1
    &&& forall|i: int|
        0 <= i < frames.len() ==> (#[trigger] frames[i]).depth == i && frames[i].next
            <= frames[i].includes.len()
}

pub open spec fn phase_target(p: PhaseModel) -> TargetModel {
    match p {
        PhaseModel::Find { target, .. } => target,
        PhaseModel::Resolve { target, .. } => target,
        PhaseModel::Canonicalize { target, .. } => target,
        PhaseModel::Read { target, .. } => target,
    }
}

/// What holds of every state of a load.
pub open spec fn loader_ok(m: LoaderModel) -> bool {
    &&& table_ok(m.tasks)
    &&& m.visited.no_duplicates()
    &&& frames_ok(m.frames)
    &&& phase_target(m.phase).depth == m.frames.len()
    &&& match m.phase {
        PhaseModel::Find { next, .. } => next < 4,
        PhaseModel::Resolve { .. } => true,
        PhaseModel::Canonicalize { target, .. } => target.depth <= MAX_INCLUDE_DEPTH,
        PhaseModel::Read { target, .. } => target.depth <= MAX_INCLUDE_DEPTH,
    }
}

/// What holds of every step result.
pub open spec fn step_ok(s: StepModel) -> bool {
    match s {
        StepModel::Pending(m, _) => loader_ok(m),
        StepModel::Finished(Ok(t)) => table_ok(t.tasks) && t.includes.len() == 0,
        StepModel::Finished(Err(_)) => true,
    }
}

proof fn lemma_insert_table_ok(m: Seq<(Seq<char>, TaskDefView)>, k: Seq<char>, v: TaskDefView)
    requires
        table_ok(m),
        !v.internal,
    ensures
        table_ok(map_insert(m, k, v)),
{
    lemma_insert_unique(m, k, v);
    let r = map_insert(m, k, v);
    if has_key(m, k) {
        let i = lemma_insert_existing(m, k, v);
        assert forall|j: int| 0 <= j < r.len() implies !(#[trigger] r[j]).1.internal by {
            if j != i {
                assert(r[j] == m[j]);
            }
        }
    } else {
        assert forall|j: int| 0 <= j < r.len() implies !(#[trigger] r[j]).1.internal by {
            if j < m.len() {
                assert(r[j] == m[j]);
            }
        }
    }
}

/// Merging a file's tasks keeps names distinct and never lets an internal
/// task in.
pub proof fn lemma_merge_table_ok(
    m: Seq<(Seq<char>, TaskDefView)>,
    entries: Seq<(Seq<char>, TaskDefView)>,
    prefix: Seq<char>,
    excludes: Seq<Seq<char>>,
)
    requires
        table_ok(m),
    ensures
        table_ok(merge_spec(m, entries, prefix, excludes)),
    decreases entries.len(),
{
    if entries.len() > 0 {
        lemma_merge_table_ok(m, entries.drop_last(), prefix, excludes);
        let (name, def) = entries.last();
        if !skipped(name, def, excludes) {
            lemma_insert_table_ok(
                merge_spec(m, entries.drop_last(), prefix, excludes),
                prefix + name,
                namespaced(def, prefix),
            );
        }
    }
}

proof fn lemma_advance_ok(
    tasks: Seq<(Seq<char>, TaskDefView)>,
    visited: Seq<Seq<char>>,
    frames: Seq<FrameModel>,
    version: Option<Seq<char>>,
)
    requires
        table_ok(tasks),
        visited.no_duplicates(),
        frames_ok(frames),
    ensures
        step_ok(advance(tasks, visited, frames, version)),
    decreases frames.len(), crate::load_model::remaining_includes(frames),
{
    if frames.len() > 0 {
        let f = frames.last();
        if f.next < f.includes.len() {
            let moved = frames.update(frames.len() - 1, FrameModel { next: f.next + 1, ..f });
            assert(frames_ok(moved)) by {
                assert forall|i: int| 0 <= i < moved.len() implies (#[trigger] moved[i]).depth == i
                    && moved[i].next <= moved[i].includes.len() by {
                    assert(frames[i].depth == i);
                }
            }
            lemma_advance_ok(tasks, visited, moved, version);
            assert(f.depth == frames.len() - 1);
        } else {
            let rest = frames.drop_last();
            assert(frames_ok(rest)) by {
                assert forall|i: int| 0 <= i < rest.len() implies (#[trigger] rest[i]).depth == i
                    && rest[i].next <= rest[i].includes.len() by {
                    assert(rest[i] == frames[i]);
                }
            }
            lemma_advance_ok(tasks, visited, rest, version);
        }
    }
}

proof fn lemma_fail_ok(
    tasks: Seq<(Seq<char>, TaskDefView)>,
    visited: Seq<Seq<char>>,
    frames: Seq<FrameModel>,
    version: Option<Seq<char>>,
    msg: Seq<char>,
    optional: bool,
)
    requires
        table_ok(tasks),
        visited.no_duplicates(),
        frames_ok(frames),
    ensures
        step_ok(fail(tasks, visited, frames, version, msg, optional)),
    decreases frames.len(),
{
    if optional {
        lemma_advance_ok(tasks, visited, frames, version);
    } else if frames.len() > 0 {
        let rest = frames.drop_last();
        assert(frames_ok(rest)) by {
            assert forall|i: int| 0 <= i < rest.len() implies (#[trigger] rest[i]).depth == i
                && rest[i].next <= rest[i].includes.len() by {
                assert(rest[i] == frames[i]);
            }
        }
        lemma_fail_ok(tasks, visited, rest, version, msg, frames.last().optional);
    }
}

/// Every load step keeps the load's state well-formed: the task table has
/// distinct names and no internal task, no canonical path is entered
/// twice, and includes are followed at most `MAX_INCLUDE_DEPTH` deep.
/// A finished load's table has distinct names and no internal task.
pub proof fn lemma_step_ok(m: LoaderModel, e: EventModel)
    requires
        loader_ok(m),
    ensures
        step_ok(step_model(m, e)),
{
    match (m.phase, e) {
        (PhaseModel::Find { .. }, EventModel::Probed { .. }) => {
            lemma_advance_ok(m.tasks, m.visited, m.frames, m.version);
        },
        (PhaseModel::Resolve { .. }, EventModel::Probed { .. }) => {
            lemma_advance_ok(m.tasks, m.visited, m.frames, m.version);
        },
        (PhaseModel::Canonicalize { .. }, EventModel::Canonical { path: canonical }) => {
            lemma_advance_ok(m.tasks, m.visited, m.frames, m.version);
            if !m.visited.contains(canonical) {
                assert(m.visited.push(canonical).no_duplicates()) by {
                    let v = m.visited.push(canonical);
                    assert forall|i: int, j: int| 0 <= i < v.len() && 0 <= j < v.len() && i != j
                        implies v[i] != v[j] by {
                        if i < m.visited.len() && j < m.visited.len() {
                            assert(v[i] == m.visited[i] && v[j] == m.visited[j]);
                        } else if i < m.visited.len() {
                            assert(v[i] == m.visited[i]);
                        } else if j < m.visited.len() {
                            assert(v[j] == m.visited[j]);
                        }
                    }
                }
            }
        },
        (PhaseModel::Read { target, .. }, EventModel::Read { dir, contents }) => {
            match contents {
                ContentsModel::Unreadable(_) => {
                    lemma_advance_ok(m.tasks, m.visited, m.frames, m.version);
                },
                ContentsModel::Malformed(msg) => {
                    lemma_fail_ok(m.tasks, m.visited, m.frames, m.version, msg, target.optional);
                },
                ContentsModel::Parsed { version, includes, tasks } => {
                    let merged = merge_spec(m.tasks, tasks, target.prefix, target.excludes);
                    lemma_merge_table_ok(m.tasks, tasks, target.prefix, target.excludes);
                    let base = match dir {
                        Some(d) => d,
                        None => seq!['.'],
                    };
                    let frame = FrameModel {
                        prefix: target.prefix,
                        base,
                        includes,
                        next: 0,
                        depth: target.depth,
                        optional: target.optional,
                    };
                    let frames = m.frames.push(frame);
                    assert(frames_ok(frames)) by {
                        assert forall|i: int| 0 <= i < frames.len() implies (#[trigger] frames[i]).depth == i
                            && frames[i].next <= frames[i].includes.len() by {
                            if i < m.frames.len() {
                                assert(frames[i] == m.frames[i]);
                            }
                        }
                    }
                    let top_version = if m.frames.len() == 0 {
                        version
                    } else {
                        m.version
                    };
                    lemma_advance_ok(merged, m.visited, frames, top_version);
                },
            }
        },
        _ => {},
    }
}

/// A load starts in a well-formed state.
pub proof fn lemma_start_ok(dir: Seq<char>)
    ensures
        loader_ok(start_model(dir)),
{
}

/// Each file is read at most once: the loader only moves on to reading a
/// file after recording its canonical path, which it had not recorded
/// before, and recorded paths are never forgotten.
pub proof fn lemma_fresh_read(m: LoaderModel, e: EventModel)
    requires
        loader_ok(m),
        !(m.phase is Read),
    ensures
        step_model(m, e) matches StepModel::Pending(m2, RequestModel::Read { .. }) ==> {
            &&& m2.visited.len() == m.visited.len() + 1
            &&& m2.visited.drop_last() == m.visited
            &&& !m.visited.contains(m2.visited.last())
        },
{
    match (m.phase, e) {
        (PhaseModel::Canonicalize { path, target }, EventModel::Canonical { path: canonical }) => {
            if !m.visited.contains(canonical) {
                assert(m.visited.push(canonical).drop_last() =~= m.visited);
            } else {
                lemma_advance_no_read(m.tasks, m.visited, m.frames, m.version);
            }
        },
        (PhaseModel::Find { target, .. }, EventModel::Probed { .. }) => {
            lemma_advance_no_read(m.tasks, m.visited, m.frames, m.version);
        },
        (PhaseModel::Resolve { .. }, EventModel::Probed { .. }) => {
            lemma_advance_no_read(m.tasks, m.visited, m.frames, m.version);
        },
        _ => {},
    }
}

proof fn lemma_advance_no_read(
    tasks: Seq<(Seq<char>, TaskDefView)>,
    visited: Seq<Seq<char>>,
    frames: Seq<FrameModel>,
    version: Option<Seq<char>>,
)
    ensures
        !(advance(tasks, visited, frames, version) matches StepModel::Pending(
            _,
            RequestModel::Read { .. },
        )),
    decreases frames.len(), crate::load_model::remaining_includes(frames),
{
    if frames.len() > 0 {
        let f = frames.last();
        if f.next < f.includes.len() {
            let moved = frames.update(frames.len() - 1, FrameModel { next: f.next + 1, ..f });
            lemma_advance_no_read(tasks, visited, moved, version);
        } else {
            lemma_advance_no_read(tasks, visited, frames.drop_last(), version);
        }
    }
}


proof fn lemma_advance_no_includes(
    tasks: Seq<(Seq<char>, TaskDefView)>,
    visited: Seq<Seq<char>>,
    frames: Seq<FrameModel>,
    version: Option<Seq<char>>,
)
    ensures
        advance(tasks, visited, frames, version) matches StepModel::Finished(Ok(t)) ==> t.includes.len()
            == 0,
    decreases frames.len(), crate::load_model::remaining_includes(frames),
{
    if frames.len() > 0 {
        let f = frames.last();
        if f.next < f.includes.len() {
            let moved = frames.update(frames.len() - 1, FrameModel { next: f.next + 1, ..f });
            lemma_advance_no_includes(tasks, visited, moved, version);
        } else {
            lemma_advance_no_includes(tasks, visited, frames.drop_last(), version);
        }
    }
}

proof fn lemma_fail_no_includes(
    tasks: Seq<(Seq<char>, TaskDefView)>,
    visited: Seq<Seq<char>>,
    frames: Seq<FrameModel>,
    version: Option<Seq<char>>,
    msg: Seq<char>,
    optional: bool,
)
    ensures
        fail(tasks, visited, frames, version, msg, optional) matches StepModel::Finished(Ok(t))
            ==> t.includes.len() == 0,
    decreases frames.len(),
{
    lemma_advance_no_includes(tasks, visited, frames, version);
    if !optional && frames.len() > 0 {
        lemma_fail_no_includes(tasks, visited, frames.drop_last(), version, msg, frames.last().optional);
    }
}

/// A load that finishes successfully has followed every include: the
/// Taskfile it gives has no include left.
pub proof fn lemma_finished_load_has_no_includes(m: LoaderModel, e: EventModel)
    ensures
        step_model(m, e) matches StepModel::Finished(Ok(t)) ==> t.includes.len() == 0,
{
    lemma_advance_no_includes(m.tasks, m.visited, m.frames, m.version);
    match (m.phase, e) {
        (PhaseModel::Read { target, .. }, EventModel::Read { dir, contents }) => {
            match contents {
                ContentsModel::Malformed(msg) => {
                    lemma_fail_no_includes(m.tasks, m.visited, m.frames, m.version, msg, target.optional);
                },
                ContentsModel::Parsed { version, includes, tasks } => {
                    let merged = merge_spec(m.tasks, tasks, target.prefix, target.excludes);
                    let base = match dir {
                        Some(d) => d,
                        None => seq!['.'],
                    };
                    let frame = FrameModel {
                        prefix: target.prefix,
                        base,
                        includes,
                        next: 0,
                        depth: target.depth,
                        optional: target.optional,
                    };
                    let top_version = if m.frames.len() == 0 {
                        version
                    } else {
                        m.version
                    };
                    lemma_advance_no_includes(merged, m.visited, m.frames.push(frame), top_version);
                },
                _ => {},
            }
        },
        _ => {},
    }
}

proof fn lemma_insert_keys(m: Seq<(Seq<char>, TaskDefView)>, k: Seq<char>, v: TaskDefView)
    ensures
        has_key(map_insert(m, k, v), k),
        forall|j: int| 0 <= j < m.len() ==> has_key(map_insert(m, k, v), #[trigger] m[j].0),
        forall|j: int|
            0 <= j < map_insert(m, k, v).len() ==> (#[trigger] map_insert(m, k, v)[j]).0 == k
                || has_key(m, map_insert(m, k, v)[j].0),
{
    let r = map_insert(m, k, v);
    if has_key(m, k) {
        let i = lemma_insert_existing(m, k, v);
        assert(r[i].0 == k);
        assert forall|j: int| 0 <= j < m.len() implies has_key(r, #[trigger] m[j].0) by {
            assert(r[j].0 == m[j].0);
        }
        assert forall|j: int| 0 <= j < r.len() implies (#[trigger] r[j]).0 == k || has_key(m, r[j].0) by {
            if j != i {
                assert(r[j] == m[j]);
            }
        }
    } else {
        assert(r[m.len() as int].0 == k);
        assert forall|j: int| 0 <= j < m.len() implies has_key(r, #[trigger] m[j].0) by {
            assert(r[j].0 == m[j].0);
        }
        assert forall|j: int| 0 <= j < r.len() implies (#[trigger] r[j]).0 == k || has_key(m, r[j].0) by {
            if j < m.len() {
                assert(r[j] == m[j]);
            }
        }
    }
}

/// Whether some kept entry of a file, namespaced, has the name `k`.
pub open spec fn merged_name(
    entries: Seq<(Seq<char>, TaskDefView)>,
    prefix: Seq<char>,
    excludes: Seq<Seq<char>>,
    k: Seq<char>,
) -> bool {
    exists|i: int|
        0 <= i < entries.len() && !skipped(entries[i].0, entries[i].1, excludes) && k == prefix
            + #[trigger] entries[i].0
}

/// Merging a file's tasks keeps every name already in the table, adds
/// `prefix` + name for every task that is neither internal nor excluded,
/// and adds no other name.
pub proof fn lemma_merge_names(
    m: Seq<(Seq<char>, TaskDefView)>,
    entries: Seq<(Seq<char>, TaskDefView)>,
    prefix: Seq<char>,
    excludes: Seq<Seq<char>>,
)
    ensures
        forall|j: int| 0 <= j < m.len() ==> has_key(merge_spec(m, entries, prefix, excludes), #[trigger] m[j].0),
        forall|i: int|
            0 <= i < entries.len() && !skipped(entries[i].0, entries[i].1, excludes) ==> has_key(
                merge_spec(m, entries, prefix, excludes),
                prefix + #[trigger] entries[i].0,
            ),
        forall|j: int|
            0 <= j < merge_spec(m, entries, prefix, excludes).len() ==> has_key(
                m,
                (#[trigger] merge_spec(m, entries, prefix, excludes)[j]).0,
            ) || merged_name(entries, prefix, excludes, merge_spec(m, entries, prefix, excludes)[j].0),
    decreases entries.len(),
{
    if entries.len() > 0 {
        let init = entries.drop_last();
        let before = merge_spec(m, init, prefix, excludes);
        let r = merge_spec(m, entries, prefix, excludes);
        lemma_merge_names(m, init, prefix, excludes);
        let (name, def) = entries.last();
        if !skipped(name, def, excludes) {
            lemma_insert_keys(before, prefix + name, namespaced(def, prefix));
        }
        assert forall|j: int| 0 <= j < m.len() implies has_key(r, #[trigger] m[j].0) by {
            let w = choose|w: int| 0 <= w < before.len() && before[w].0 == m[j].0;
            assert(has_key(r, before[w].0));
        }
        assert forall|i: int|
            0 <= i < entries.len() && !skipped(entries[i].0, entries[i].1, excludes) implies has_key(
            r,
            prefix + #[trigger] entries[i].0,
        ) by {
            if i < init.len() {
                assert(init[i] == entries[i]);
                let w = choose|w: int| 0 <= w < before.len() && before[w].0 == prefix + init[i].0;
                assert(has_key(r, before[w].0));
            }
        }
        assert forall|j: int| 0 <= j < r.len() implies has_key(m, (#[trigger] r[j]).0) || merged_name(
            entries,
            prefix,
            excludes,
            r[j].0,
        ) by {
            if !skipped(name, def, excludes) && r[j].0 == prefix + name {
                assert(entries[entries.len() - 1].0 == name);
            } else {
                let w = choose|w: int| 0 <= w < before.len() && before[w].0 == r[j].0;
                assert(before[w] == before[w]);
                if merged_name(init, prefix, excludes, before[w].0) {
                    let i = choose|i: int|
                        0 <= i < init.len() && !skipped(init[i].0, init[i].1, excludes) && before[w].0
                            == prefix + #[trigger] init[i].0;
                    assert(entries[i] == init[i]);
                }
            }
        }
    }
}


/// The Taskfile of a directory is looked for under these four names, in
/// this order: `Taskfile.yml`, `Taskfile.yaml`, `taskfile.yml`,
/// `taskfile.yaml`.
pub proof fn lemma_taskfile_names()
    ensures
        taskfile_names() == seq!["Taskfile.yml"@, "Taskfile.yaml"@, "taskfile.yml"@, "taskfile.yaml"@],
{
    reveal_strlit("Taskfile.yml");
    reveal_strlit("Taskfile.yaml");
    reveal_strlit("taskfile.yml");
    reveal_strlit("taskfile.yaml");
    assert(taskfile_names()[0] =~= "Taskfile.yml"@);
    assert(taskfile_names()[1] =~= "Taskfile.yaml"@);
    assert(taskfile_names()[2] =~= "taskfile.yml"@);
    assert(taskfile_names()[3] =~= "taskfile.yaml"@);
    assert(taskfile_names() =~= seq!["Taskfile.yml"@, "Taskfile.yaml"@, "taskfile.yml"@, "taskfile.yaml"@]);
}

} // verus!
