//! The task picker's state and its response to keys: filtering the task
//! list, moving the selection, and collecting required variables.
use vstd::prelude::*;
use crate::taskdef::{RequiredVar, RequiredVarView, TaskDefView};
use crate::loader::{LoadError, Taskfile};
use crate::load_model::LoadErrorModel;
use crate::matching::{fuzzy_match, is_subsequence};
use crate::required_vars::{
    RequiresState, index_after, index_before, initial_selection, next_index, previous_index,
    task_invocation, command_line,
};
use crate::task_map::{into_task_pairs, task_entries};
use crate::text::{clone_strings, lowercase, pop_char, push_char, to_lowercase, trim, trimmed};

verus! {

broadcast use vstd::string::group_string_axioms;

/// A single task entry shown in the task list.
pub struct Task {
    pub name: String,
    pub desc: Option<String>,
    pub summary: Option<String>,
    pub cmds: Vec<String>,
    pub requires: Vec<RequiredVar>,
}

pub struct TaskView {
    pub name: Seq<char>,
    pub desc: Option<Seq<char>>,
    pub summary: Option<Seq<char>>,
    pub cmds: Seq<Seq<char>>,
    pub requires: Seq<RequiredVarView>,
}

impl View for Task {
    type V = TaskView;

    open spec fn view(&self) -> TaskView {
        TaskView {
            name: self.name@,
            desc: self.desc.deep_view(),
            summary: self.summary.deep_view(),
            cmds: self.cmds.deep_view(),
            requires: self.requires.deep_view(),
        }
    }
}

/// The list entry for a loaded task.
pub open spec fn task_view_of(name: Seq<char>, def: TaskDefView) -> TaskView {
    TaskView {
        name,
        desc: def.desc,
        summary: def.summary,
        cmds: def.cmds,
        requires: def.requires,
    }
}

/// Which pane has keyboard focus.
#[derive(PartialEq, Eq, Structural, Clone, Copy)]
pub enum Focus {
    Filter,
    Tasks,
}

/// A key press, as far as the picker distinguishes keys.
#[derive(PartialEq, Eq, Structural, Clone, Copy)]
pub enum Key {
    Esc,
    Tab,
    Enter,
    Backspace,
    Up,
    Down,
    Char(char),
    Other,
}

/// What a key press resulted in.
pub enum Action {
    /// Keep running.
    Continue,
    /// Quit without selecting anything.
    Quit,
    /// Close the picker and hand this command to the shell.
    Submit(String),
}

/// The active screen.
pub enum Mode {
    /// Browsing and filtering the task list.
    Browse,
    /// Collecting values for a task's `requires.vars` before submitting.
    Requires(RequiresState),
}

/// Whether a task name matches a (lowercased) query: the query is a
/// subsequence of the lowercased name.
pub open spec fn name_matches(name: Seq<char>, query: Seq<char>) -> bool {
    is_subsequence(query, lowercase(name))
}

/// Indices among the first `n` tasks whose names match `query`, in order.
pub open spec fn matching_upto(tasks: Seq<Task>, query: Seq<char>, n: nat) -> Seq<usize>
    decreases n,
{
    if n == 0 {
        Seq::empty()
    } else {
        let before = matching_upto(tasks, query, (n - 1) as nat);
        if name_matches(tasks[n - 1].name@, query) {
            before.push((n - 1) as usize)
        } else {
            before
        }
    }
}

/// Indices among the first `n` names that contain `query` as a
/// subsequence, in order.
pub open spec fn indices_upto(names: Seq<Seq<char>>, query: Seq<char>, n: nat) -> Seq<usize>
    decreases n,
{
    if n == 0 {
        Seq::empty()
    } else {
        let before = indices_upto(names, query, (n - 1) as nat);
        if is_subsequence(query, names[n - 1]) {
            before.push((n - 1) as usize)
        } else {
            before
        }
    }
}

/// The positions of the names (already lowercased) that contain the
/// (lowercased) query as a subsequence, in order.
pub fn filter_indices(names: &Vec<String>, query: &str) -> (r: Vec<usize>)
    ensures
        r@ == indices_upto(names.deep_view(), query@, names@.len()),
{
    let mut r: Vec<usize> = Vec::new();
    let mut i: usize = 0;
    while i < names.len()
        invariant
            i <= names@.len(),
            r@ == indices_upto(names.deep_view(), query@, i as nat),
        decreases names@.len() - i,
    {
        assert(names.deep_view()[i as int] == names@[i as int]@);
        if fuzzy_match(names[i].as_str(), query) {
            r.push(i);
        }
        i = i + 1;
    }
    r
}

/// Selecting by lowercased names is selecting the tasks whose names match.
proof fn lemma_indices_of_lowered(tasks: Seq<Task>, names: Seq<Seq<char>>, query: Seq<char>, n: nat)
    requires
        n <= tasks.len(),
        n <= names.len(),
        forall|k: int| 0 <= k < n ==> #[trigger] names[k] == lowercase(tasks[k].name@),
    ensures
        indices_upto(names, query, n) == matching_upto(tasks, query, n),
    decreases n,
{
    if n > 0 {
        lemma_indices_of_lowered(tasks, names, query, (n - 1) as nat);
        assert(names[n - 1] == lowercase(tasks[n - 1].name@));
    }
}

/// Indices of the tasks whose names match the filter input (compared
/// case-insensitively), in list order.
pub open spec fn matching(tasks: Seq<Task>, input: Seq<char>) -> Seq<usize> {
    matching_upto(tasks, lowercase(input), tasks.len())
}

/// The selection kept within a list of `len` entries.
pub open spec fn clamped(sel: Option<usize>, len: nat) -> Option<usize> {
    if len == 0 {
        None
    } else {
        let s = match sel {
            Some(i) => i as int,
            None => 0,
        };
        Some(
            (if s <= len - 1 {
                s
            } else {
                len - 1
            }) as usize,
        )
    }
}

pub open spec fn toggled(f: Focus) -> Focus {
    match f {
        Focus::Filter => Focus::Tasks,
        Focus::Tasks => Focus::Filter,
    }
}

/// The status shown when there is no task to list.
pub open spec fn status_for(loaded: Result<Seq<(Seq<char>, TaskDefView)>, LoadErrorModel>) -> Option<
    Seq<char>,
> {
    match loaded {
        Ok(tasks) => if tasks.len() == 0 {
            Some("Taskfile has no tasks"@)
        } else {
            None
        },
        Err(LoadErrorModel::NotFound) => Some("No Taskfile.yml found in the current directory"@),
        Err(e) => Some(crate::loader::load_error_text(e)),
    }
}

/// Application state.
pub struct App {
    pub tasks: Vec<Task>,
    /// Indices into `tasks` that match the current `input`, in display order.
    pub filtered: Vec<usize>,
    /// The current filter query.
    pub input: String,
    /// The selected position in `filtered`.
    pub state: Option<usize>,
    /// The pane that receives key input.
    pub focus: Focus,
    /// The active screen.
    pub mode: Mode,
    /// Message shown when no Taskfile could be loaded.
    pub status: Option<String>,
}

impl RequiresState {
    /// `self` is `before` after accepting `value` (see `accept`), with `r`
    /// what `accept` returned.
    pub open spec fn accepted(&self, before: RequiresState, value: Seq<char>, r: Option<String>) -> bool {
        &&& self.task_name == before.task_name
        &&& self.vars == before.vars
        &&& self.answers.deep_view() == before.answers.deep_view().push(value)
        &&& self.current == before.current + 1
        &&& self.current >= before.vars@.len() ==> {
            &&& r matches Some(cmd) && cmd@ == command_line(
                before.task_name@,
                before.vars.deep_view(),
                self.answers.deep_view(),
            )
            &&& self.text == before.text
            &&& self.list == before.list
        }
        &&& self.current < before.vars@.len() ==> {
            &&& r is None
            &&& self.text@.len() == 0
            &&& self.list == initial_selection(before.vars.deep_view(), self.current as int)
        }
    }

    /// What a key does while filling in the variables: an enum variable's
    /// value is chosen with Up/Down (or k/j) and Enter; a free-form value is
    /// typed, and Enter accepts it when it is not blank.
    pub open spec fn key_effect(&self, before: RequiresState, key: Key, r: Option<String>) -> bool {
        if before.is_enum_at(before.current as int) {
            let len = before.vars@[before.current as int].enum_values@.len() as int;
            if key == Key::Up || key == Key::Char('k') || key == Key::Down || key == Key::Char('j') {
                let forward = key == Key::Down || key == Key::Char('j');
                &&& r is None
                &&& self.list == Some(
                    (match before.list {
                        Some(i) => if forward {
                            next_index(i as int, len)
                        } else {
                            previous_index(i as int, len)
                        },
                        None => 0,
                    }) as usize,
                )
                &&& *self == RequiresState { list: self.list, ..before }
            } else if key == Key::Enter {
                let i = match before.list {
                    Some(i) => i as int,
                    None => 0,
                };
                self.accepted(before, before.vars@[before.current as int].enum_values@[i]@, r)
            } else {
                r is None && *self == before
            }
        } else {
            match key {
                Key::Char(c) => {
                    &&& r is None
                    &&& self.text@ == before.text@.push(c)
                    &&& *self == RequiresState { text: self.text, ..before }
                },
                Key::Backspace => {
                    &&& r is None
                    &&& self.text@ == (if before.text@.len() > 0 {
                        before.text@.drop_last()
                    } else {
                        before.text@
                    })
                    &&& *self == RequiresState { text: self.text, ..before }
                },
                Key::Enter => {
                    let value = trimmed(before.text@);
                    if value.len() > 0 {
                        self.accepted(before, value, r)
                    } else {
                        r is None && *self == before
                    }
                },
                _ => r is None && *self == before,
            }
        }
    }

    /// Respond to a key while filling in the variables. Returns the final
    /// command once the last variable has its value.
    pub fn handle_key(&mut self, key: Key) -> (r: Option<String>)
        requires
            old(self).in_progress(),
        ensures
            final(self).key_effect(*old(self), key, r),
            r is None ==> final(self).in_progress(),
    {
        let count = self.vars.len();
        assert(self.current < count);
        if self.current_is_enum() {
            match key {
                Key::Up | Key::Char('k') => {
                    self.list_previous();
                    None
                },
                Key::Down | Key::Char('j') => {
                    self.list_next();
                    None
                },
                Key::Enter => {
                    let i = match self.list {
                        Some(i) => i,
                        None => 0,
                    };
                    let value = self.current_var().enum_values[i].clone();
                    let ghost v = value@;
                    let r = self.accept(value);
                    assert(self.answers.deep_view() =~= old(self).answers.deep_view().push(v));
                    r
                },
                _ => None,
            }
        } else {
            match key {
                Key::Char(c) => {
                    push_char(&mut self.text, c);
                    None
                },
                Key::Backspace => {
                    pop_char(&mut self.text);
                    None
                },
                Key::Enter => {
                    let value = trim(self.text.as_str()).to_owned();
                    if !value.as_str().is_empty() {
                        let ghost v = value@;
                        let r = self.accept(value);
                        assert(self.answers.deep_view() =~= old(self).answers.deep_view().push(v));
                        r
                    } else {
                        None
                    }
                },
                _ => None,
            }
        }
    }
}

/// A copy of a required variable.
fn clone_var(v: &RequiredVar) -> (r: RequiredVar)
    ensures
        r@ == v@,
{
    RequiredVar { name: v.name.clone(), enum_values: clone_strings(&v.enum_values) }
}

/// A copy of each required variable.
fn clone_vars(v: &Vec<RequiredVar>) -> (r: Vec<RequiredVar>)
    ensures
        r.deep_view() == v.deep_view(),
{
    let mut r: Vec<RequiredVar> = Vec::new();
    let mut i: usize = 0;
    while i < v.len()
        invariant
            i <= v.len(),
            r.len() == i,
            forall|j: int| 0 <= j < i ==> (#[trigger] r@[j])@ == v@[j]@,
        decreases v.len() - i,
    {
        r.push(clone_var(&v[i]));
        i = i + 1;
    }
    assert(r.deep_view() =~= v.deep_view());
    r
}


impl App {
    /// Keys can be handled: while filling in variables the flow is at one
    /// of the task's variables.
    pub open spec fn wf(&self) -> bool {
        self.mode matches Mode::Requires(st) ==> st.in_progress()
    }

    /// Whether the picker is in a state in which it handles keys.
    pub fn accepts_keys(&self) -> (r: bool)
        ensures
            r == self.wf(),
    {
        match &self.mode {
            Mode::Browse => true,
            Mode::Requires(st) => {
                st.current < st.vars.len() && st.answers.len() == st.current && match st.list {
                    Some(i) => i < st.vars[st.current].enum_values.len(),
                    None => true,
                }
            },
        }
    }

    /// The task list shows exactly the tasks of the table, in order.
    pub open spec fn lists(&self, table: Seq<(Seq<char>, TaskDefView)>) -> bool {
        &&& self.tasks@.len() == table.len()
        &&& forall|i: int|
            0 <= i < table.len() ==> (#[trigger] self.tasks@[i])@ == task_view_of(
                table[i].0,
                table[i].1,
            )
    }

    /// The picker for a load result: the loaded tasks, in order, or a
    /// status message saying why there are none; nothing typed yet, the
    /// filter focused, every task listed and the first one selected.
    pub fn new(loaded: Result<Taskfile, LoadError>) -> (app: App)
        ensures
            match loaded {
                Ok(tf) => app.lists(task_entries(tf.tasks)) && app.status.deep_view() == status_for(
                    Ok(task_entries(tf.tasks)),
                ),
                Err(e) => app.tasks@.len() == 0 && app.status.deep_view() == status_for(Err(e@)),
            },
            app.input@.len() == 0,
            app.focus == Focus::Filter,
            app.mode is Browse,
            app.filtered@ == matching(app.tasks@, app.input@),
            app.state == clamped(None, app.filtered@.len()),
    {
        let (tasks, status) = match loaded {
            Ok(tf) => {
                let ghost table = task_entries(tf.tasks);
                let pairs = into_task_pairs(tf.tasks);
                let ghost all = pairs@;
                let mut rest = pairs;
                let mut tasks: Vec<Task> = Vec::new();
                while rest.len() > 0
                    invariant
                        tasks.len() + rest.len() == all.len(),
                        all.len() == table.len(),
                        rest@ == all.subrange(tasks.len() as int, all.len() as int),
                        forall|j: int| 0 <= j < all.len() ==> (#[trigger] all[j]).0@ == table[j].0 && all[j].1@ == table[j].1,
                        forall|j: int|
                            0 <= j < tasks.len() ==> (#[trigger] tasks@[j])@ == task_view_of(
                                table[j].0,
                                table[j].1,
                            ),
                    decreases rest.len(),
                {
                    let (name, def) = rest.remove(0);
                    tasks.push(Task {
                        name,
                        desc: def.desc,
                        summary: def.summary,
                        cmds: def.cmds,
                        requires: def.requires,
                    });
                    assert(rest@ =~= all.subrange(tasks.len() as int, all.len() as int));
                }
                if tasks.len() == 0 {
                    (tasks, Some(String::from_str("Taskfile has no tasks")))
                } else {
                    (tasks, None)
                }
            },
            Err(LoadError::NotFound) => (
                Vec::new(),
                Some(String::from_str("No Taskfile.yml found in the current directory")),
            ),
            Err(e) => (Vec::new(), Some(e.message())),
        };
        let mut app = App {
            tasks,
            filtered: Vec::new(),
            input: String::new(),
            state: None,
            focus: Focus::Filter,
            mode: Mode::Browse,
            status,
        };
        app.apply_filter();
        app
    }

    /// `self` is `before` with the filter input set to `input`, the list
    /// recomputed and the selection kept within it.
    pub open spec fn refiltered(&self, before: App, input: Seq<char>) -> bool {
        &&& self.input@ == input
        &&& self.filtered@ == matching(before.tasks@, input)
        &&& self.state == clamped(before.state, self.filtered@.len())
        &&& self.tasks == before.tasks
        &&& self.focus == before.focus
        &&& self.mode == before.mode
        &&& self.status == before.status
    }

    /// Recompute `filtered` from `input` (case-insensitive fuzzy
    /// subsequence match on task names) and keep the selection in bounds.
    pub fn apply_filter(&mut self)
        ensures
            final(self).refiltered(*old(self), old(self).input@),
            final(self).input == old(self).input,
    {
        let query = to_lowercase(self.input.as_str());
        let mut names: Vec<String> = Vec::new();
        let mut i: usize = 0;
        while i < self.tasks.len()
            invariant
                i <= self.tasks@.len(),
                names@.len() == i,
                forall|k: int| 0 <= k < i ==> #[trigger] names@[k]@ == lowercase(self.tasks@[k].name@),
            decreases self.tasks@.len() - i,
        {
            names.push(to_lowercase(self.tasks[i].name.as_str()));
            i = i + 1;
        }
        let filtered = filter_indices(&names, query.as_str());
        proof {
            assert forall|k: int| 0 <= k < self.tasks@.len() implies #[trigger] names.deep_view()[k]
                == lowercase(self.tasks@[k].name@) by {
                assert(names.deep_view()[k] == names@[k]@);
            }
            lemma_indices_of_lowered(self.tasks@, names.deep_view(), query@, self.tasks@.len());
        }
        self.filtered = filtered;
        if self.filtered.len() == 0 {
            self.state = None;
        } else {
            let s = match self.state {
                Some(s) => s,
                None => 0,
            };
            let last = self.filtered.len() - 1;
            self.state = Some(if s <= last { s } else { last });
        }
    }

    pub fn push_char(&mut self, c: char)
        ensures
            final(self).refiltered(*old(self), old(self).input@.push(c)),
    {
        push_char(&mut self.input, c);
        self.apply_filter();
    }

    pub fn pop_char(&mut self)
        ensures
            final(self).refiltered(
                *old(self),
                if old(self).input@.len() > 0 {
                    old(self).input@.drop_last()
                } else {
                    old(self).input@
                },
            ),
    {
        pop_char(&mut self.input);
        self.apply_filter();
    }

    /// The selection after moving one step (forward or back) through the
    /// filtered list, wrapping around; nothing changes on an empty list.
    pub open spec fn moved(&self, before: App, forward: bool) -> bool {
        let len = before.filtered@.len() as int;
        &&& self.state == if len == 0 {
            before.state
        } else {
            Some(
                (match before.state {
                    Some(i) => if forward {
                        next_index(i as int, len)
                    } else {
                        previous_index(i as int, len)
                    },
                    None => 0,
                }) as usize,
            )
        }
        &&& *self == App { state: self.state, ..before }
    }

    pub fn next(&mut self)
        ensures
            final(self).moved(*old(self), true),
    {
        if self.filtered.len() == 0 {
            return;
        }
        let i = match self.state {
            Some(i) => index_after(i, self.filtered.len()),
            None => 0,
        };
        self.state = Some(i);
    }

    pub fn previous(&mut self)
        ensures
            final(self).moved(*old(self), false),
    {
        if self.filtered.len() == 0 {
            return;
        }
        let i = match self.state {
            Some(i) => index_before(i, self.filtered.len()),
            None => 0,
        };
        self.state = Some(i);
    }

    /// The index in `tasks` of the selected task, if any.
    pub open spec fn selected_index(&self) -> Option<int> {
        match self.state {
            Some(i) => if i < self.filtered@.len() && self.filtered@[i as int] < self.tasks@.len() {
                Some(self.filtered@[i as int] as int)
            } else {
                None
            },
            None => None,
        }
    }

    /// The selected task, if any.
    pub fn selected(&self) -> (r: Option<&Task>)
        ensures
            r is Some <==> self.selected_index() is Some,
            r matches Some(t) ==> *t == self.tasks@[self.selected_index()->0],
    {
        match self.state {
            Some(i) => if i < self.filtered.len() && self.filtered[i] < self.tasks.len() {
                Some(&self.tasks[self.filtered[i]])
            } else {
                None
            },
            None => None,
        }
    }

    /// Cycle keyboard focus between the filter box and the task list.
    pub fn toggle_focus(&mut self)
        ensures
            *final(self) == (App { focus: toggled(old(self).focus), ..*old(self) }),
    {
        self.focus = match self.focus {
            Focus::Filter => Focus::Tasks,
            Focus::Tasks => Focus::Filter,
        };
    }

    /// What a key does while browsing. Esc quits; Tab switches focus;
    /// Enter submits `task <name>` for the selected task, or starts
    /// collecting its required variables; in the filter, characters and
    /// Backspace edit the query and Up/Down move the selection; in the
    /// task list, Up/Down and k/j move the selection.
    pub open spec fn browse_effect(&self, before: App, key: Key, r: Action) -> bool {
        match key {
            Key::Esc => r is Quit && *self == before,
            Key::Tab => r is Continue && *self == (App { focus: toggled(before.focus), ..before }),
            Key::Enter => match before.selected_index() {
                None => r is Continue && *self == before,
                Some(t) => {
                    let task = before.tasks@[t];
                    if task.requires@.len() == 0 {
                        &&& r matches Action::Submit(cmd) && cmd@ == task_invocation(task.name@)
                        &&& *self == before
                    } else {
                        &&& r is Continue
                        &&& self.mode matches Mode::Requires(st) && st.task_name@ == task.name@
                            && st.vars.deep_view() == task.requires.deep_view()
                            && st.answers@.len() == 0 && st.current == 0 && st.text@.len() == 0
                            && st.list == initial_selection(task.requires.deep_view(), 0)
                        &&& *self == (App { mode: self.mode, ..before })
                    }
                },
            },
            _ => r is Continue && match before.focus {
                Focus::Filter => match key {
                    Key::Char(c) => self.refiltered(before, before.input@.push(c)),
                    Key::Backspace => self.refiltered(
                        before,
                        if before.input@.len() > 0 {
                            before.input@.drop_last()
                        } else {
                            before.input@
                        },
                    ),
                    Key::Up => self.moved(before, false),
                    Key::Down => self.moved(before, true),
                    _ => *self == before,
                },
                Focus::Tasks => if key == Key::Up || key == Key::Char('k') {
                    self.moved(before, false)
                } else if key == Key::Down || key == Key::Char('j') {
                    self.moved(before, true)
                } else {
                    *self == before
                },
            },
        }
    }

    /// Key handling for the task browser.
    pub fn browse_key(&mut self, code: Key) -> (r: Action)
        ensures
            final(self).browse_effect(*old(self), code, r),
            old(self).wf() ==> final(self).wf(),
    {
        match code {
            Key::Esc => {
                return Action::Quit;
            },
            Key::Tab => self.toggle_focus(),
            Key::Enter => {
                let choice = match self.selected() {
                    Some(t) => Some((t.name.clone(), clone_vars(&t.requires))),
                    None => None,
                };
                if let Some((name, vars)) = choice {
                    let ghost task = self.tasks@[self.selected_index()->0];
                    assert(vars.deep_view().len() == vars@.len());
                    if vars.len() == 0 {
                        assert(task.requires@.len() == 0);
                        let mut cmd = String::from_str("task ");
                        proof {
                            reveal_strlit("task ");
                        }
                        cmd.append(name.as_str());
                        assert(cmd@ =~= task_invocation(name@));
                        return Action::Submit(cmd);
                    }
                    self.mode = Mode::Requires(RequiresState::new(name, vars));
                }
            },
            _ => match self.focus {
                Focus::Filter => match code {
                    Key::Char(c) => self.push_char(c),
                    Key::Backspace => self.pop_char(),
                    Key::Up => self.previous(),
                    Key::Down => self.next(),
                    _ => {},
                },
                Focus::Tasks => match code {
                    Key::Up | Key::Char('k') => self.previous(),
                    Key::Down | Key::Char('j') => self.next(),
                    _ => {},
                },
            },
        }
        Action::Continue
    }

    /// What a key does while filling in variables: Esc returns to browsing;
    /// otherwise the flow handles it (see `RequiresState::key_effect`) and
    /// the final command, once complete, is submitted.
    pub open spec fn requires_effect(&self, before: App, key: Key, r: Action) -> bool {
        if key == Key::Esc {
            r is Continue && *self == (App { mode: Mode::Browse, ..before })
        } else {
            match before.mode {
                Mode::Browse => r is Continue && *self == before,
                Mode::Requires(st) => {
                    &&& self.mode matches Mode::Requires(st2) && exists|out: Option<String>|
                        #[trigger] st2.key_effect(st, key, out) && match out {
                            Some(cmd) => r == Action::Submit(cmd),
                            None => r is Continue,
                        }
                    &&& *self == (App { mode: self.mode, ..before })
                },
            }
        }
    }

    /// Key handling for the "fill in required variables" flow.
    pub fn requires_key(&mut self, code: Key) -> (r: Action)
        requires
            code != Key::Esc ==> old(self).wf(),
        ensures
            final(self).requires_effect(*old(self), code, r),
            !(r is Submit) ==> final(self).wf(),
    {
        if code == Key::Esc {
            self.mode = Mode::Browse;
            return Action::Continue;
        }
        let mut mode = Mode::Browse;
        std::mem::swap(&mut mode, &mut self.mode);
        match mode {
            Mode::Browse => Action::Continue,
            Mode::Requires(mut st) => {
                let ghost before = st;
                let out = st.handle_key(code);
                assert(st.key_effect(before, code, out));
                self.mode = Mode::Requires(st);
                match out {
                    Some(cmd) => Action::Submit(cmd),
                    None => Action::Continue,
                }
            },
        }
    }

    /// Handle a key press in the current mode and report what should happen.
    pub fn on_key(&mut self, code: Key) -> (r: Action)
        requires
            code != Key::Esc ==> old(self).wf(),
        ensures
            old(self).mode is Requires ==> final(self).requires_effect(*old(self), code, r),
            old(self).mode is Browse ==> final(self).browse_effect(*old(self), code, r),
            !(r is Submit) ==> final(self).wf(),
    {
        if matches!(self.mode, Mode::Requires(_)) {
            self.requires_key(code)
        } else {
            self.browse_key(code)
        }
    }
}


/// The items separated by `sep`.
pub open spec fn joined(items: Seq<Seq<char>>, sep: Seq<char>) -> Seq<char>
    decreases items.len(),
{
    if items.len() == 0 {
        Seq::empty()
    } else if items.len() == 1 {
        items[0]
    } else {
        joined(items.drop_last(), sep) + sep + items.last()
    }
}

/// The strings of `items` separated by `sep`.
pub fn join(items: &Vec<String>, sep: &str) -> (r: String)
    ensures
        r@ == joined(items.deep_view(), sep@),
{
    let mut out = String::new();
    let mut i: usize = 0;
    while i < items.len()
        invariant
            i <= items@.len(),
            out@ == joined(items.deep_view().take(i as int), sep@),
        decreases items@.len() - i,
    {
        if i > 0 {
            out.append(sep);
        }
        out.append(items[i].as_str());
        proof {
            let t = items.deep_view().take(i + 1);
            assert(t.drop_last() =~= items.deep_view().take(i as int));
            assert(t.last() == items@[i as int]@);
            if i == 0 {
                assert(out@ =~= t[0]);
            }
        }
        i = i + 1;
    }
    assert(items.deep_view().take(items@.len() as int) =~= items.deep_view());
    out
}

/// How a line of the details pane is shown.
#[derive(PartialEq, Eq, Structural, Clone, Copy)]
pub enum LineKind {
    /// A section heading (`description:`, `requires:`, `commands:`).
    Heading,
    /// One plain line.
    Plain,
    /// A status message, which may span several lines.
    Message,
}

/// A line of the details pane.
pub struct DetailLine {
    pub kind: LineKind,
    pub text: String,
}

pub open spec fn line(kind: LineKind, text: Seq<char>) -> (LineKind, Seq<char>) {
    (kind, text)
}

pub open spec fn indented(text: Seq<char>) -> Seq<char> {
    "  "@ + text
}

pub open spec fn description_block(t: TaskView) -> Seq<(LineKind, Seq<char>)> {
    if t.desc is Some || t.summary is Some {
        seq![line(LineKind::Heading, "description:"@)] + (match t.desc {
            Some(d) => seq![line(LineKind::Plain, indented(d))],
            None => Seq::empty(),
        }) + (match t.summary {
            Some(s) => seq![line(LineKind::Plain, indented(s))],
            None => Seq::empty(),
        }) + seq![line(LineKind::Plain, Seq::empty())]
    } else {
        Seq::empty()
    }
}

/// `NAME (input)` for a free-form variable, `NAME [a, b]` for an enum.
pub open spec fn var_line(v: RequiredVarView) -> Seq<char> {
    if v.enum_values.len() == 0 {
        indented(v.name) + " (input)"@
    } else {
        indented(v.name) + " ["@ + joined(v.enum_values, ", "@) + "]"@
    }
}

pub open spec fn requires_block(t: TaskView) -> Seq<(LineKind, Seq<char>)> {
    if t.requires.len() > 0 {
        seq![line(LineKind::Heading, "requires:"@)] + t.requires.map_values(
            |v: RequiredVarView| line(LineKind::Plain, var_line(v)),
        ) + seq![line(LineKind::Plain, Seq::empty())]
    } else {
        Seq::empty()
    }
}

pub open spec fn commands_block(t: TaskView) -> Seq<(LineKind, Seq<char>)> {
    if t.cmds.len() > 0 {
        seq![line(LineKind::Heading, "commands:"@)] + t.cmds.map_values(
            |c: Seq<char>| line(LineKind::Plain, "  $ "@ + c),
        )
    } else {
        Seq::empty()
    }
}

/// The details shown for a task: its description and summary, its
/// required variables and its commands, each section only when present.
pub open spec fn task_details(t: TaskView) -> Seq<(LineKind, Seq<char>)> {
    description_block(t) + requires_block(t) + commands_block(t)
}

pub open spec fn lines_view(v: Seq<DetailLine>) -> Seq<(LineKind, Seq<char>)> {
    v.map_values(|l: DetailLine| (l.kind, l.text@))
}

fn push_line(out: &mut Vec<DetailLine>, kind: LineKind, text: String)
    ensures
        lines_view(final(out)@) == lines_view(old(out)@).push((kind, text@)),
{
    out.push(DetailLine { kind, text });
    assert(lines_view(final(out)@) =~= lines_view(old(out)@).push((kind, text@)));
}

fn indent(text: &String) -> (r: String)
    ensures
        r@ == indented(text@),
{
    let mut r = String::from_str("  ");
    r.append(text.as_str());
    r
}

fn names_of(vars: &Vec<RequiredVar>) -> (r: Vec<String>)
    ensures
        r.deep_view() == vars.deep_view().map_values(|v: RequiredVarView| v.name),
{
    let mut r: Vec<String> = Vec::new();
    let mut i: usize = 0;
    while i < vars.len()
        invariant
            i <= vars@.len(),
            r@.len() == i,
            forall|j: int| 0 <= j < i ==> (#[trigger] r@[j])@ == vars@[j].name@,
        decreases vars@.len() - i,
    {
        r.push(vars[i].name.clone());
        i = i + 1;
    }
    assert(r.deep_view() =~= vars.deep_view().map_values(|v: RequiredVarView| v.name));
    r
}

fn detail_for(t: &Task) -> (r: Vec<DetailLine>)
    ensures
        lines_view(r@) == task_details(t@),
{
    let mut lines: Vec<DetailLine> = Vec::new();
    assert(lines_view(lines@) =~= Seq::<(LineKind, Seq<char>)>::empty());
    if t.desc.is_some() || t.summary.is_some() {
        push_line(&mut lines, LineKind::Heading, String::from_str("description:"));
        if let Some(desc) = &t.desc {
            push_line(&mut lines, LineKind::Plain, indent(desc));
        }
        if let Some(summary) = &t.summary {
            push_line(&mut lines, LineKind::Plain, indent(summary));
        }
        push_line(&mut lines, LineKind::Plain, String::new());
    }
    assert(lines_view(lines@) =~= description_block(t@));
    let ghost after_desc = lines_view(lines@);
    if t.requires.len() > 0 {
        push_line(&mut lines, LineKind::Heading, String::from_str("requires:"));
        let mut i: usize = 0;
        while i < t.requires.len()
            invariant
                i <= t.requires@.len(),
                lines_view(lines@) == after_desc + seq![line(LineKind::Heading, "requires:"@)]
                    + t.requires.deep_view().take(i as int).map_values(
                    |v: RequiredVarView| line(LineKind::Plain, var_line(v)),
                ),
            decreases t.requires@.len() - i,
        {
            let var = &t.requires[i];
            let text = if var.enum_values.len() == 0 {
                let mut s = indent(&var.name);
                s.append(" (input)");
                s
            } else {
                let mut s = indent(&var.name);
                s.append(" [");
                let values = join(&var.enum_values, ", ");
                s.append(values.as_str());
                s.append("]");
                s
            };
            assert(text@ == var_line(var@));
            push_line(&mut lines, LineKind::Plain, text);
            proof {
                let tk = t.requires.deep_view().take(i + 1);
                assert(tk =~= t.requires.deep_view().take(i as int).push(var@));
                assert(tk.map_values(|v: RequiredVarView| line(LineKind::Plain, var_line(v))) =~=
                    t.requires.deep_view().take(i as int).map_values(|v: RequiredVarView| line(LineKind::Plain, var_line(v))).push(line(LineKind::Plain, var_line(var@))));
            }
            i = i + 1;
        }
        assert(t.requires.deep_view().take(t.requires@.len() as int) =~= t.requires.deep_view());
        push_line(&mut lines, LineKind::Plain, String::new());
    }
    assert(lines_view(lines@) =~= description_block(t@) + requires_block(t@));
    let ghost after_req = lines_view(lines@);
    if t.cmds.len() > 0 {
        push_line(&mut lines, LineKind::Heading, String::from_str("commands:"));
        let mut i: usize = 0;
        while i < t.cmds.len()
            invariant
                i <= t.cmds@.len(),
                lines_view(lines@) == after_req + seq![line(LineKind::Heading, "commands:"@)]
                    + t.cmds.deep_view().take(i as int).map_values(
                    |c: Seq<char>| line(LineKind::Plain, "  $ "@ + c),
                ),
            decreases t.cmds@.len() - i,
        {
            let mut s = String::from_str("  $ ");
            s.append(t.cmds[i].as_str());
            push_line(&mut lines, LineKind::Plain, s);
            proof {
                let tk = t.cmds.deep_view().take(i + 1);
                assert(tk =~= t.cmds.deep_view().take(i as int).push(t.cmds@[i as int]@));
                assert(tk.map_values(|c: Seq<char>| line(LineKind::Plain, "  $ "@ + c)) =~=
                    t.cmds.deep_view().take(i as int).map_values(|c: Seq<char>| line(LineKind::Plain, "  $ "@ + c)).push(line(LineKind::Plain, "  $ "@ + t.cmds@[i as int]@)));
            }
            i = i + 1;
        }
        assert(t.cmds.deep_view().take(t.cmds@.len() as int) =~= t.cmds.deep_view());
    }
    assert(lines_view(lines@) =~= task_details(t@));
    lines
}

impl App {
    /// The details pane: the selected task's details, or else the status
    /// message (or `No task selected`).
    pub open spec fn details(&self) -> Seq<(LineKind, Seq<char>)> {
        match self.selected_index() {
            Some(i) => task_details(self.tasks@[i]@),
            None => seq![
                line(
                    LineKind::Message,
                    match self.status {
                        Some(s) => s@,
                        None => "No task selected"@,
                    },
                ),
            ],
        }
    }

    /// Build the lines shown in the details pane.
    pub fn detail_lines(&self) -> (r: Vec<DetailLine>)
        ensures
            lines_view(r@) == self.details(),
    {
        match self.selected() {
            Some(t) => detail_for(t),
            None => {
                let text = match &self.status {
                    Some(s) => s.clone(),
                    None => String::from_str("No task selected"),
                };
                let mut lines: Vec<DetailLine> = Vec::new();
                push_line(&mut lines, LineKind::Message, text);
                assert(lines_view(lines@) =~= self.details());
                lines
            },
        }
    }

    /// The command box: what Enter will send for the selected task, with
    /// a hint naming the variables that Enter will ask for.
    pub open spec fn command_preview(&self) -> Seq<char> {
        match self.selected_index() {
            Some(i) => {
                let t = self.tasks@[i]@;
                if t.requires.len() > 0 {
                    task_invocation(t.name) + "  (Enter to set: "@ + joined(
                        t.requires.map_values(|v: RequiredVarView| v.name),
                        ", "@,
                    ) + ")"@
                } else {
                    task_invocation(t.name)
                }
            },
            None => "(no task selected)"@,
        }
    }

    /// The text of the command box.
    pub fn command_text(&self) -> (r: String)
        ensures
            r@ == self.command_preview(),
    {
        match self.selected() {
            Some(t) => {
                let mut s = String::from_str("task ");
                proof {
                    reveal_strlit("task ");
                }
                s.append(t.name.as_str());
                assert(s@ =~= task_invocation(t.name@));
                if t.requires.len() > 0 {
                    s.append("  (Enter to set: ");
                    let names = join(&names_of(&t.requires), ", ");
                    s.append(names.as_str());
                    s.append(")");
                }
                s
            },
            None => String::from_str("(no task selected)"),
        }
    }
}

/// What the command line asks for before the picker starts.
#[derive(PartialEq, Eq, Structural, Clone, Copy)]
pub enum CliRequest {
    /// Print the version and exit.
    Version,
    /// Print the help text and exit.
    Help,
    /// Start the picker.
    Run,
}

pub open spec fn is_version_flag(a: Seq<char>) -> bool {
    a == "-V"@ || a == "--version"@
}

pub open spec fn is_help_flag(a: Seq<char>) -> bool {
    a == "-h"@ || a == "--help"@
}

/// The request of the first argument that is a version or help flag;
/// `Run` when there is none.
pub open spec fn cli_request_of(args: Seq<Seq<char>>) -> CliRequest
    decreases args.len(),
{
    if args.len() == 0 {
        CliRequest::Run
    } else if is_version_flag(args[0]) {
        CliRequest::Version
    } else if is_help_flag(args[0]) {
        CliRequest::Help
    } else {
        cli_request_of(args.drop_first())
    }
}

fn str_eq(a: &String, b: &str) -> (r: bool)
    ensures
        r == (a@ == b@),
{
    let bs = String::from_str(b);
    *a == bs
}

/// Decide from the command-line arguments (without the program name)
/// whether to print the version, print the help, or run the picker.
pub fn cli_request(args: &Vec<String>) -> (r: CliRequest)
    ensures
        r == cli_request_of(args.deep_view()),
{
    let mut i: usize = 0;
    assert(args.deep_view().skip(0) =~= args.deep_view());
    while i < args.len()
        invariant
            i <= args@.len(),
            cli_request_of(args.deep_view()) == cli_request_of(args.deep_view().skip(i as int)),
        decreases args@.len() - i,
    {
        let a = &args[i];
        proof {
            let rest = args.deep_view().skip(i as int);
            assert(rest[0] == a@);
            assert(rest.drop_first() =~= args.deep_view().skip(i + 1));
        }
        if str_eq(a, "-V") || str_eq(a, "--version") {
            return CliRequest::Version;
        }
        if str_eq(a, "-h") || str_eq(a, "--help") {
            return CliRequest::Help;
        }
        i = i + 1;
    }
    CliRequest::Run
}

/// The filtered list holds valid task indices, in increasing order, and
/// exactly the tasks whose names match the query.
pub proof fn lemma_matching_indices(tasks: Seq<Task>, query: Seq<char>, n: nat)
    requires
        n <= tasks.len(),
        tasks.len() <= usize::MAX,
    ensures
        forall|k: int|
            0 <= k < matching_upto(tasks, query, n).len() ==> #[trigger] matching_upto(tasks, query, n)[k] < n
                && name_matches(tasks[matching_upto(tasks, query, n)[k] as int].name@, query),
        forall|a: int, b: int|
            0 <= a < b < matching_upto(tasks, query, n).len() ==> #[trigger] matching_upto(tasks, query, n)[a]
                < #[trigger] matching_upto(tasks, query, n)[b],
        forall|t: int|
            0 <= t < n && name_matches(#[trigger] tasks[t].name@, query) ==> matching_upto(tasks, query, n).contains(
                t as usize,
            ),
    decreases n,
{
    if n > 0 {
        lemma_matching_indices(tasks, query, (n - 1) as nat);
        let before = matching_upto(tasks, query, (n - 1) as nat);
        let m = matching_upto(tasks, query, n);
        assert forall|k: int| 0 <= k < m.len() implies #[trigger] m[k] < n && name_matches(
            tasks[m[k] as int].name@,
            query,
        ) by {
            if k < before.len() {
                assert(m[k] == before[k]);
            }
        }
        assert forall|a: int, b: int| 0 <= a < b < m.len() implies #[trigger] m[a] < #[trigger] m[b] by {
            assert(m[a] == before[a]);
            if b < before.len() {
                assert(m[b] == before[b]);
            }
        }
        assert forall|t: int| 0 <= t < n && name_matches(#[trigger] tasks[t].name@, query) implies m.contains(
            t as usize,
        ) by {
            if t < n - 1 {
                let k = choose|k: int| 0 <= k < before.len() && before[k] == t as usize;
                assert(m[k] == before[k]);
            } else {
                assert(m[m.len() - 1] == (n - 1) as usize);
            }
        }
    }
}

/// After filtering, a selection exists exactly when some task is listed,
/// and it is a position in the list.
pub proof fn lemma_clamped_in_range(sel: Option<usize>, len: nat)
    ensures
        clamped(sel, len) is Some <==> len > 0,
        clamped(sel, len) matches Some(i) ==> i < len,
        sel matches Some(i) && i < len ==> clamped(sel, len) == sel,
{
}

/// Switching focus twice returns to the pane that had it.
pub proof fn lemma_toggle_twice(f: Focus)
    ensures
        toggled(toggled(f)) == f,
{
}


/// The selected task is the one shown at the highlighted row: row `i` of
/// the list shows task `filtered[i]`, whatever its position in the table.
pub proof fn lemma_selected_is_highlighted_row(app: App, i: usize)
    requires
        app.state == Some(i),
        i < app.filtered@.len(),
        app.filtered@[i as int] < app.tasks@.len(),
    ensures
        app.selected_index() == Some(app.filtered@[i as int] as int),
{
}

/// Enter while browsing, with row `i` highlighted in a list filtered by
/// the input, submits (if anything) `task ` followed by the name of the
/// task on that row, and that name, lowercased, contains the lowercased
/// input as a subsequence.
pub proof fn lemma_enter_submits_highlighted_match(before: App, after: App, r: Action, i: usize)
    requires
        before.filtered@ == matching(before.tasks@, before.input@),
        before.tasks@.len() <= usize::MAX,
        before.state == Some(i),
        i < before.filtered@.len(),
        after.browse_effect(before, Key::Enter, r),
    ensures
        before.filtered@[i as int] < before.tasks@.len(),
        r matches Action::Submit(cmd) ==> {
            let t = before.tasks@[before.filtered@[i as int] as int];
            &&& cmd@ == "task "@ + t.name@
            &&& is_subsequence(lowercase(before.input@), lowercase(t.name@))
            &&& t.requires@.len() == 0
        },
        r is Continue || r is Submit,
{
    reveal_strlit("task ");
    lemma_matching_indices(before.tasks@, lowercase(before.input@), before.tasks@.len());
    assert(before.filtered@[i as int] < before.tasks@.len());
    if let Action::Submit(cmd) = r {
        let t = before.tasks@[before.filtered@[i as int] as int];
        assert(cmd@ =~= "task "@ + t.name@);
    }
}

/// Moving the selection up or down keeps it inside the shown list and
/// wraps around it: Down goes from row `i` to `(i + 1) % n`, Up to
/// `(i + n - 1) % n`, where `n` is the number of rows shown; with nothing
/// selected the first row is taken. Nothing else changes.
pub proof fn lemma_moving_stays_in_shown_list(before: App, after: App, forward: bool)
    requires
        after.moved(before, forward),
        before.filtered@.len() > 0,
    ensures
        after.state matches Some(j) && j < before.filtered@.len(),
        after.filtered == before.filtered,
        after.tasks == before.tasks,
        after.input == before.input,
        before.state matches Some(i) ==> after.state == Some(
            (if forward {
                (i + 1) % (before.filtered@.len() as int)
            } else {
                (i + before.filtered@.len() - 1) % (before.filtered@.len() as int)
            }) as usize,
        ),
        before.state is None ==> after.state == Some(0usize),
        before.state == Some(0usize) && !forward ==> after.state == Some((before.filtered@.len() - 1) as usize),
        before.state matches Some(i) && i + 1 == before.filtered@.len() && forward ==> after.state == Some(0usize),
{
    let n = before.filtered@.len() as int;
    if let Some(i) = before.state {
        if forward {
            assert(0 <= (i + 1) % n < n);
            if i == n - 1 {
                assert((n - 1 + 1) % n == 0) by {
                    vstd::arithmetic::div_mod::lemma_mod_self_0(n);
                }
            }
        } else {
            assert(0 <= (i + n - 1) % n < n);
            if i == 0 {
                assert((0 + n - 1) % n == n - 1) by {
                    vstd::arithmetic::div_mod::lemma_small_mod((n - 1) as nat, n as nat);
                }
            }
        }
    }
}

/// Up/Down (and k/j) on an enum variable move the highlight through its
/// values, wrapping around: Down and `j` go from `i` to `(i + 1) % n`, Up
/// and `k` to `(i + n - 1) % n`, where `n` is the number of values; the
/// answers so far and the command are untouched. Enter takes the
/// highlighted value as the variable's answer.
pub proof fn lemma_enum_keys_move_highlight(
    before: RequiresState,
    after: RequiresState,
    key: Key,
    r: Option<String>,
    i: usize,
)
    requires
        before.in_progress(),
        before.vars@[before.current as int].enum_values@.len() > 0,
        before.list == Some(i),
        after.key_effect(before, key, r),
    ensures
        ({
            let n = before.vars@[before.current as int].enum_values@.len() as int;
            &&& (key == Key::Down || key == Key::Char('j')) ==> r is None && after.list == Some(
                ((i + 1) % n) as usize,
            ) && after.answers == before.answers && after.current == before.current
            &&& (key == Key::Up || key == Key::Char('k')) ==> r is None && after.list == Some(
                ((i + n - 1) % n) as usize,
            ) && after.answers == before.answers && after.current == before.current
            &&& key == Key::Enter ==> after.answers.deep_view() == before.answers.deep_view().push(
                before.vars@[before.current as int].enum_values@[i as int]@,
            )
        }),
{
}

/// The details of a task show its description and its summary, each
/// indented by two spaces under a `description:` heading that comes first,
/// and every command, as `  $ ` and the command, under `commands:`.
pub proof fn lemma_details_show_task(t: TaskView)
    ensures
        t.desc is Some || t.summary is Some ==> task_details(t)[0] == (LineKind::Heading, "description:"@),
        t.desc matches Some(d) ==> task_details(t)[1] == (LineKind::Plain, "  "@ + d),
        t.summary matches Some(s) ==> task_details(t).contains((LineKind::Plain, "  "@ + s)),
        t.desc is Some ==> (t.summary matches Some(s) ==> task_details(t)[2] == (LineKind::Plain, "  "@ + s)),
        forall|k: int| 0 <= k < t.cmds.len() ==> task_details(t).contains((LineKind::Plain, "  $ "@ + #[trigger] t.cmds[k])),
{
    let d = description_block(t);
    let q = requires_block(t);
    let c = commands_block(t);
    let all = task_details(t);
    assert(all == d + q + c);
    if let Some(s) = t.summary {
        let k = if t.desc is Some { 2int } else { 1int };
        assert(d[k] == (LineKind::Plain, "  "@ + s));
        assert(all[k] == d[k]);
    }
    if t.desc is Some || t.summary is Some {
        assert(all[0] == d[0]);
        if t.desc is Some {
            assert(all[1] == d[1]);
            if t.summary is Some {
                assert(all[2] == d[2]);
            }
        }
    }
    assert forall|k: int| 0 <= k < t.cmds.len() implies all.contains((LineKind::Plain, "  $ "@ + #[trigger] t.cmds[k])) by {
        let at = d.len() + q.len() + 1 + k;
        assert(c[1 + k] == (LineKind::Plain, "  $ "@ + t.cmds[k]));
        assert(all[at] == c[1 + k]);
    }
}

} // verus!
