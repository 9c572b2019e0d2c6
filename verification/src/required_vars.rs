//! Collecting values for a task's required variables and assembling the
//! command line that runs it.
use vstd::prelude::*;
use crate::taskdef::{RequiredVar, RequiredVarView};
use crate::quote::{shell_quote, shell_quoted};
use crate::text::{push_char, trim, trimmed};

verus! {

broadcast use vstd::string::group_string_axioms;

/// The placeholder shown for a value not entered yet.
pub open spec fn placeholder() -> Seq<char> {
    seq!['\u{2026}']
}

/// `task <name>`.
pub open spec fn task_invocation(task_name: Seq<char>) -> Seq<char> {
    seq!['t', 'a', 's', 'k', ' '] + task_name
}

/// `NAME=value`.
pub open spec fn assignment(name: Seq<char>, value: Seq<char>) -> Seq<char> {
    name + seq!['='] + value
}

/// The assignments `NAME=value ` for the first `n` variables, each value
/// shell-quoted.
pub open spec fn assignments(vars: Seq<RequiredVarView>, answers: Seq<Seq<char>>, n: nat) -> Seq<char>
    decreases n,
{
    if n == 0 {
        Seq::empty()
    } else {
        assignments(vars, answers, (n - 1) as nat) + assignment(
            vars[n - 1].name,
            shell_quoted(answers[n - 1]),
        ) + seq![' ']
    }
}

/// The command that runs `task_name` with the given values: each variable
/// that has a value becomes a prefix assignment, e.g.
/// `NAME=web ENV=prod task deploy`.
pub open spec fn command_line(
    task_name: Seq<char>,
    vars: Seq<RequiredVarView>,
    answers: Seq<Seq<char>>,
) -> Seq<char> {
    let n = if vars.len() <= answers.len() {
        vars.len()
    } else {
        answers.len()
    };
    assignments(vars, answers, n) + task_invocation(task_name)
}

/// The position after `i` in a list of `len` entries, wrapping around.
pub open spec fn next_index(i: int, len: int) -> int {
    (i + 1) % len
}

/// The position before `i` in a list of `len` entries, wrapping around.
pub open spec fn previous_index(i: int, len: int) -> int {
    (i + len - 1) % len
}

/// `next_index`, without overflow.
pub fn index_after(i: usize, len: usize) -> (r: usize)
    requires
        len > 0,
    ensures
        r == next_index(i as int, len as int),
        r < len,
{
    let j = i % len + 1;
    proof {
        vstd::arithmetic::div_mod::lemma_add_mod_noop_right(1, i as int, len as int);
        vstd::arithmetic::div_mod::lemma_mod_self_0(len as int);
        if j < len {
            vstd::arithmetic::div_mod::lemma_small_mod(j as nat, len as nat);
        }
    }
    if j == len {
        0
    } else {
        j
    }
}

/// `previous_index`, without overflow.
pub fn index_before(i: usize, len: usize) -> (r: usize)
    requires
        len > 0,
    ensures
        r == previous_index(i as int, len as int),
        r < len,
{
    if i == 0 {
        proof {
            vstd::arithmetic::div_mod::lemma_small_mod((len - 1) as nat, len as nat);
        }
        len - 1
    } else {
        proof {
            vstd::arithmetic::div_mod::lemma_mod_add_multiples_vanish(i - 1, len as int);
        }
        (i - 1) % len
    }
}

/// Moving back undoes moving forward, and moving forward undoes moving
/// back, for any position in the list.
pub proof fn lemma_next_previous_inverse(i: int, len: int)
    requires
        0 <= i < len,
    ensures
        previous_index(next_index(i, len), len) == i,
        next_index(previous_index(i, len), len) == i,
{
    vstd::arithmetic::div_mod::lemma_mod_self_0(len);
    if i + 1 < len {
        vstd::arithmetic::div_mod::lemma_small_mod((i + 1) as nat, len as nat);
        vstd::arithmetic::div_mod::lemma_small_mod((i + 1 + len - 1 - len) as nat, len as nat);
        vstd::arithmetic::div_mod::lemma_mod_add_multiples_vanish(i, len);
    } else {
        vstd::arithmetic::div_mod::lemma_small_mod((len - 1) as nat, len as nat);
    }
    if i > 0 {
        vstd::arithmetic::div_mod::lemma_mod_add_multiples_vanish(i - 1, len);
        vstd::arithmetic::div_mod::lemma_small_mod((i - 1) as nat, len as nat);
        vstd::arithmetic::div_mod::lemma_small_mod(i as nat, len as nat);
    } else {
        vstd::arithmetic::div_mod::lemma_small_mod((len - 1) as nat, len as nat);
    }
}

/// The selection to start with for variable `i`: the first value of its
/// enum, if it has one.
pub open spec fn initial_selection(vars: Seq<RequiredVarView>, i: int) -> Option<usize> {
    if 0 <= i < vars.len() && vars[i].enum_values.len() > 0 {
        Some(0)
    } else {
        None
    }
}

/// State for the "fill in required variables" flow.
pub struct RequiresState {
    pub task_name: String,
    pub vars: Vec<RequiredVar>,
    /// Values already entered for vars `0..current`.
    pub answers: Vec<String>,
    /// Index of the variable currently being filled.
    pub current: usize,
    /// Free-form text buffer for the current (non-enum) variable.
    pub text: String,
    /// The highlighted value of the current enum variable.
    pub list: Option<usize>,
}

impl RequiresState {
    pub open spec fn vars_view(&self) -> Seq<RequiredVarView> {
        self.vars.deep_view()
    }

    /// The flow is at a variable, and a highlighted value is one of its
    /// values.
    pub open spec fn in_progress(&self) -> bool {
        &&& self.current < self.vars@.len()
        &&& self.answers@.len() == self.current
        &&& self.list matches Some(i) ==> i < self.vars@[self.current as int].enum_values@.len()
    }

    pub open spec fn is_enum_at(&self, i: int) -> bool {
        self.vars@[i].enum_values@.len() > 0
    }

    /// The value shown in the preview for the variable being filled: the
    /// highlighted enum value, or the trimmed text typed so far, quoted;
    /// a placeholder when there is none.
    pub open spec fn current_preview(&self) -> Seq<char> {
        if self.is_enum_at(self.current as int) {
            match self.list {
                Some(j) => if j < self.vars@[self.current as int].enum_values@.len() {
                    shell_quoted(self.vars@[self.current as int].enum_values@[j as int]@)
                } else {
                    placeholder()
                },
                None => placeholder(),
            }
        } else {
            let t = trimmed(self.text@);
            if t.len() == 0 {
                placeholder()
            } else {
                shell_quoted(t)
            }
        }
    }

    /// The preview of variable `i`'s value: its answer if it has one, what
    /// is being entered for the current one, a placeholder for the others.
    pub open spec fn preview_value(&self, i: int) -> Seq<char> {
        if i < self.answers@.len() {
            shell_quoted(self.answers@[i]@)
        } else if i == self.current {
            self.current_preview()
        } else {
            placeholder()
        }
    }

    pub open spec fn preview_assignments(&self, n: nat) -> Seq<char>
        decreases n,
    {
        if n == 0 {
            Seq::empty()
        } else {
            self.preview_assignments((n - 1) as nat) + assignment(
                self.vars@[n - 1].name@,
                self.preview_value(n - 1),
            ) + seq![' ']
        }
    }

    /// The live preview of the command being assembled.
    pub open spec fn preview_line(&self) -> Seq<char> {
        self.preview_assignments(self.vars@.len()) + task_invocation(self.task_name@)
    }

    pub fn new(task_name: String, vars: Vec<RequiredVar>) -> (s: Self)
        ensures
            s.task_name == task_name,
            s.vars == vars,
            s.answers@.len() == 0,
            s.current == 0,
            s.text@.len() == 0,
            s.list == initial_selection(vars.deep_view(), 0),
    {
        let mut s = RequiresState {
            task_name,
            vars,
            answers: Vec::new(),
            current: 0,
            text: String::new(),
            list: None,
        };
        s.prepare_current();
        s
    }

    pub fn current_var(&self) -> (r: &RequiredVar)
        requires
            self.current < self.vars@.len(),
        ensures
            *r == self.vars@[self.current as int],
    {
        &self.vars[self.current]
    }

    pub fn current_is_enum(&self) -> (r: bool)
        requires
            self.current < self.vars@.len(),
        ensures
            r == self.is_enum_at(self.current as int),
    {
        self.current_var().enum_values.len() > 0
    }

    /// Reset the per-variable input state when moving to a new variable.
    pub fn prepare_current(&mut self)
        ensures
            final(self).task_name == old(self).task_name,
            final(self).vars == old(self).vars,
            final(self).answers == old(self).answers,
            final(self).current == old(self).current,
            final(self).text@.len() == 0,
            final(self).list == initial_selection(old(self).vars.deep_view(), old(self).current as int),
    {
        self.text = String::new();
        if self.current < self.vars.len() && self.current_is_enum() {
            self.list = Some(0);
        } else {
            self.list = None;
        }
    }

    /// Highlight the next enum value, wrapping around.
    pub fn list_next(&mut self)
        requires
            old(self).current < old(self).vars@.len(),
        ensures
            final(self).task_name == old(self).task_name,
            final(self).vars == old(self).vars,
            final(self).answers == old(self).answers,
            final(self).current == old(self).current,
            final(self).text == old(self).text,
            ({
                let len = old(self).vars@[old(self).current as int].enum_values@.len();
                final(self).list == if len == 0 {
                    old(self).list
                } else {
                    match old(self).list {
                        Some(i) => Some(next_index(i as int, len as int) as usize),
                        None => Some(0usize),
                    }
                }
            }),
    {
        let len = self.current_var().enum_values.len();
        if len == 0 {
            return;
        }
        let i = match self.list {
            Some(i) => index_after(i, len),
            None => 0,
        };
        self.list = Some(i);
    }

    /// Highlight the previous enum value, wrapping around.
    pub fn list_previous(&mut self)
        requires
            old(self).current < old(self).vars@.len(),
        ensures
            final(self).task_name == old(self).task_name,
            final(self).vars == old(self).vars,
            final(self).answers == old(self).answers,
            final(self).current == old(self).current,
            final(self).text == old(self).text,
            ({
                let len = old(self).vars@[old(self).current as int].enum_values@.len();
                final(self).list == if len == 0 {
                    old(self).list
                } else {
                    match old(self).list {
                        Some(i) => Some(previous_index(i as int, len as int) as usize),
                        None => Some(0usize),
                    }
                }
            }),
    {
        let len = self.current_var().enum_values.len();
        if len == 0 {
            return;
        }
        let i = match self.list {
            Some(i) => index_before(i, len),
            None => 0,
        };
        self.list = Some(i);
    }

    /// Record `value` for the current variable and advance. Returns the final
    /// command once every variable has an answer.
    pub fn accept(&mut self, value: String) -> (r: Option<String>)
        requires
            old(self).current < usize::MAX,
        ensures
            final(self).task_name == old(self).task_name,
            final(self).vars == old(self).vars,
            final(self).answers@ == old(self).answers@.push(value),
            final(self).current == old(self).current + 1,
            final(self).current >= old(self).vars@.len() ==> {
                &&& r matches Some(cmd) && cmd@ == command_line(
                    old(self).task_name@,
                    old(self).vars.deep_view(),
                    final(self).answers.deep_view(),
                )
                &&& final(self).text == old(self).text
                &&& final(self).list == old(self).list
            },
            final(self).current < old(self).vars@.len() ==> {
                &&& r is None
                &&& final(self).text@.len() == 0
                &&& final(self).list == initial_selection(
                    old(self).vars.deep_view(),
                    final(self).current as int,
                )
            },
    {
        self.answers.push(value);
        self.current = self.current + 1;
        if self.current >= self.vars.len() {
            Some(self.build_command())
        } else {
            self.prepare_current();
            None
        }
    }

    /// The command with every answered variable as a prefix assignment:
    /// `NAME=web ENV=prod task deploy`.
    pub fn build_command(&self) -> (r: String)
        ensures
            r@ == command_line(self.task_name@, self.vars.deep_view(), self.answers.deep_view()),
    {
        let n = if self.vars.len() <= self.answers.len() {
            self.vars.len()
        } else {
            self.answers.len()
        };
        let mut cmd = String::new();
        let mut i: usize = 0;
        while i < n
            invariant
                i <= n,
                n <= self.vars@.len(),
                n <= self.answers@.len(),
                cmd@ == assignments(self.vars.deep_view(), self.answers.deep_view(), i as nat),
            decreases n - i,
        {
            cmd.append(self.vars[i].name.as_str());
            push_char(&mut cmd, '=');
            let q = shell_quote(self.answers[i].as_str());
            cmd.append(q.as_str());
            push_char(&mut cmd, ' ');
            proof {
                assert(self.vars.deep_view()[i as int] == self.vars@[i as int]@);
                assert(self.answers.deep_view()[i as int] == self.answers@[i as int]@);
                assert(cmd@ =~= assignments(self.vars.deep_view(), self.answers.deep_view(), (i + 1) as nat));
            }
            i = i + 1;
        }
        append_invocation(&mut cmd, &self.task_name);
        cmd
    }

    /// The value preview for the variable currently being filled in.
    pub fn current_value_preview(&self) -> (r: String)
        requires
            self.current < self.vars@.len(),
        ensures
            r@ == self.current_preview(),
    {
        if self.current_is_enum() {
            let var = self.current_var();
            match self.list {
                Some(j) => if j < var.enum_values.len() {
                    shell_quote(var.enum_values[j].as_str())
                } else {
                    ellipsis()
                },
                None => ellipsis(),
            }
        } else {
            let t = trim(self.text.as_str());
            if t.is_empty() {
                ellipsis()
            } else {
                shell_quote(t)
            }
        }
    }

    /// A live preview of the command as it is being assembled: answered
    /// variables show their values, the current one what is being entered,
    /// and the others a `…` placeholder.
    pub fn preview_command(&self) -> (r: String)
        ensures
            r@ == self.preview_line(),
    {
        let mut out = String::new();
        let mut i: usize = 0;
        while i < self.vars.len()
            invariant
                i <= self.vars@.len(),
                out@ == self.preview_assignments(i as nat),
            decreases self.vars@.len() - i,
        {
            let value = if i < self.answers.len() {
                shell_quote(self.answers[i].as_str())
            } else if i == self.current {
                self.current_value_preview()
            } else {
                ellipsis()
            };
            out.append(self.vars[i].name.as_str());
            push_char(&mut out, '=');
            out.append(value.as_str());
            push_char(&mut out, ' ');
            proof {
                assert(out@ =~= self.preview_assignments((i + 1) as nat));
            }
            i = i + 1;
        }
        append_invocation(&mut out, &self.task_name);
        out
    }
}

/// The `…` placeholder.
fn ellipsis() -> (r: String)
    ensures
        r@ == placeholder(),
{
    let mut r = String::new();
    push_char(&mut r, '\u{2026}');
    r
}

/// Appends `task <name>`.
fn append_invocation(out: &mut String, task_name: &String)
    ensures
        final(out)@ == old(out)@ + task_invocation(task_name@),
{
    let prefix = String::from_str("task ");
    proof {
        reveal_strlit("task ");
    }
    out.append(prefix.as_str());
    out.append(task_name.as_str());
    assert(final(out)@ =~= old(out)@ + task_invocation(task_name@));
}

/// Once every variable has an answer, the live preview is exactly the
/// command that will be submitted.
pub proof fn lemma_complete_preview_is_command(s: RequiresState)
    requires
        s.answers@.len() == s.vars@.len(),
    ensures
        s.preview_line() == command_line(s.task_name@, s.vars.deep_view(), s.answers.deep_view()),
{
    lemma_preview_prefix(s, s.vars@.len());
}

proof fn lemma_preview_prefix(s: RequiresState, n: nat)
    requires
        n <= s.vars@.len(),
        n <= s.answers@.len(),
    ensures
        s.preview_assignments(n) == assignments(s.vars.deep_view(), s.answers.deep_view(), n),
    decreases n,
{
    if n > 0 {
        lemma_preview_prefix(s, (n - 1) as nat);
        assert(s.vars.deep_view()[n - 1] == s.vars@[n - 1]@);
        assert(s.answers.deep_view()[n - 1] == s.answers@[n - 1]@);
    }
}

} // verus!
