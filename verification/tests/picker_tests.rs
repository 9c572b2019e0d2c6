use fzftask::matching::fuzzy_match;
use fzftask::picker::{cli_request, filter_indices, Action, App, CliRequest, Focus, Key, LineKind, Mode};
use fzftask::text::{strip_flagged, trim, whitespace_flags};
use fzftask::quote::{alnum_flags, quote_flagged, shell_quote};
use fzftask::required_vars::RequiresState;
use fzftask::taskdef::{RequiredVar, TaskDef};
use fzftask::loader::{LoadError, Taskfile};
use indexmap::IndexMap;

fn var(name: &str, enums: &[&str]) -> RequiredVar {
    RequiredVar {
        name: name.to_string(),
        enum_values: enums.iter().map(|s| s.to_string()).collect(),
    }
}

#[test]
fn requires_flow_builds_command() {
    let vars = vec![var("NAME", &[]), var("ENV", &["dev", "staging", "prod"])];
    let mut state = RequiresState::new("deploy".into(), vars);

    // First (free-form) variable.
    assert!(!state.current_is_enum());
    assert_eq!(state.accept("web".into()), None);

    // Second (enum) variable; accepting it completes the flow.
    assert!(state.current_is_enum());
    let cmd = state.accept("prod".into()).expect("flow should complete");
    assert_eq!(cmd, "NAME=web ENV=prod task deploy");
}

#[test]
fn preview_reflects_in_progress_input() {
    let vars = vec![var("NAME", &[]), var("ENV", &["dev", "staging", "prod"])];
    let mut state = RequiresState::new("deploy".into(), vars);

    // Nothing entered yet: both are placeholders.
    assert_eq!(state.preview_command(), "NAME=\u{2026} ENV=\u{2026} task deploy");

    // Typing the first value updates the preview live.
    state.text.push_str("web");
    assert_eq!(state.preview_command(), "NAME=web ENV=\u{2026} task deploy");

    // After accepting NAME, the enum's highlighted value is previewed.
    assert_eq!(state.accept("web".into()), None);
    assert_eq!(state.preview_command(), "NAME=web ENV=dev task deploy");

    // Moving the selection reflects in the preview.
    state.list_next();
    assert_eq!(state.preview_command(), "NAME=web ENV=staging task deploy");
}

#[test]
fn shell_quote_wraps_unsafe_values() {
    assert_eq!(shell_quote("prod"), "prod");
    assert_eq!(shell_quote("a/b-c.1"), "a/b-c.1");
    assert_eq!(shell_quote("hello world"), "'hello world'");
    assert_eq!(shell_quote(""), "''");
    assert_eq!(shell_quote("it's"), r#"'it'\''s'"#);
}

#[test]
fn fuzzy_match_is_subsequence() {
    // Non-contiguous subsequence matches (the motivating example).
    assert!(fuzzy_match("deploy", "delo"));
    assert!(fuzzy_match("docs:serve", "dsv"));
    assert!(fuzzy_match("build", "bld"));
    // Empty query matches everything.
    assert!(fuzzy_match("anything", ""));
    // Order matters and missing chars fail.
    assert!(!fuzzy_match("deploy", "yold"));
    assert!(!fuzzy_match("build", "z"));
}

#[test]
fn shell_quote_keeps_plain_punctuation_and_unicode_letters() {
    assert_eq!(shell_quote("user@host:80%+x_y"), "user@host:80%+x_y");
    assert_eq!(shell_quote("caf\u{e9}"), "caf\u{e9}");
    assert_eq!(shell_quote("a;b"), "'a;b'");
    assert_eq!(shell_quote("''"), r#"''\'''\'''"#);
}

#[test]
fn fuzzy_match_needle_longer_than_haystack() {
    assert!(!fuzzy_match("ab", "abc"));
    assert!(fuzzy_match("", ""));
    assert!(!fuzzy_match("", "a"));
    assert!(fuzzy_match("aab", "ab"));
}

#[test]
fn list_navigation_wraps_and_undoes() {
    let vars = vec![var("ENV", &["dev", "staging", "prod"])];
    let mut state = RequiresState::new("deploy".into(), vars);
    assert_eq!(state.list, Some(0));
    state.list_previous();
    assert_eq!(state.list, Some(2));
    state.list_next();
    assert_eq!(state.list, Some(0));
    state.list_next();
    state.list_next();
    state.list_next();
    assert_eq!(state.list, Some(0));
}

#[test]
fn list_navigation_on_free_form_variable_does_nothing() {
    let mut state = RequiresState::new("deploy".into(), vec![var("NAME", &[])]);
    assert_eq!(state.list, None);
    state.list_next();
    state.list_previous();
    assert_eq!(state.list, None);
}

#[test]
fn preview_trims_and_quotes_typed_text() {
    let mut state = RequiresState::new("deploy".into(), vec![var("MSG", &[])]);
    state.text.push_str("  hello world  ");
    assert_eq!(state.preview_command(), "MSG='hello world' task deploy");
    state.text = "   ".to_string();
    assert_eq!(state.preview_command(), "MSG=\u{2026} task deploy");
}

#[test]
fn build_command_quotes_values() {
    let mut state = RequiresState::new("say".into(), vec![var("MSG", &[])]);
    let cmd = state.accept("it's here".into());
    assert_eq!(cmd.as_deref(), Some(r#"MSG='it'\''s here' task say"#));
}

fn def(requires: Vec<RequiredVar>) -> TaskDef {
    TaskDef {
        desc: None,
        summary: None,
        cmds: Vec::new(),
        requires,
        aliases: Vec::new(),
        internal: false,
    }
}

fn app_with(tasks: Vec<(&str, TaskDef)>) -> App {
    let mut map = IndexMap::new();
    for (name, d) in tasks {
        map.insert(name.to_string(), d);
    }
    App::new(Ok(Taskfile { version: None, includes: Vec::new(), tasks: map }))
}

fn names(app: &App) -> Vec<String> {
    app.filtered.iter().map(|&i| app.tasks[i].name.clone()).collect()
}

#[test]
fn new_app_lists_every_task_and_selects_the_first() {
    let app = app_with(vec![("build", def(vec![])), ("deploy", def(vec![]))]);
    assert_eq!(names(&app), ["build", "deploy"]);
    assert_eq!(app.state, Some(0));
    assert!(app.focus == Focus::Filter);
    assert!(app.status.is_none());
    assert!(matches!(app.mode, Mode::Browse));
}

#[test]
fn new_app_status_messages() {
    let app = app_with(vec![]);
    assert_eq!(app.status.as_deref(), Some("Taskfile has no tasks"));
    assert_eq!(app.state, None);
    let app = App::new(Err(LoadError::NotFound));
    assert_eq!(app.status.as_deref(), Some("No Taskfile.yml found in the current directory"));
    let app = App::new(Err(LoadError::Parse("bad yaml".into())));
    assert_eq!(app.status.as_deref(), Some("failed to parse Taskfile: bad yaml"));
    let app = App::new(Err(LoadError::Io("denied".into())));
    assert_eq!(app.status.as_deref(), Some("failed to read Taskfile: denied"));
    let lines = app.detail_lines();
    assert_eq!(lines.len(), 1);
    assert!(lines[0].kind == LineKind::Message);
    assert_eq!(lines[0].text, "failed to read Taskfile: denied");
}

#[test]
fn typing_filters_case_insensitively() {
    let mut app = app_with(vec![
        ("Lint", def(vec![])),
        ("Deploy", def(vec![])),
        ("docs:serve", def(vec![])),
    ]);
    assert!(matches!(app.on_key(Key::Char('D')), Action::Continue));
    assert_eq!(names(&app), ["Deploy", "docs:serve"]);
    app.on_key(Key::Char('s'));
    assert_eq!(names(&app), ["docs:serve"]);
    assert_eq!(app.state, Some(0));
    app.on_key(Key::Char('z'));
    assert!(names(&app).is_empty());
    assert_eq!(app.state, None);
    app.on_key(Key::Backspace);
    app.on_key(Key::Backspace);
    app.on_key(Key::Backspace);
    assert_eq!(names(&app), ["Lint", "Deploy", "docs:serve"]);
    assert_eq!(app.input, "");
    app.on_key(Key::Backspace);
    assert_eq!(app.input, "");
}

#[test]
fn selection_is_clamped_when_the_list_shrinks() {
    let mut app = app_with(vec![("a1", def(vec![])), ("b1", def(vec![])), ("c1", def(vec![]))]);
    app.on_key(Key::Down);
    app.on_key(Key::Down);
    assert_eq!(app.state, Some(2));
    app.on_key(Key::Char('1'));
    assert_eq!(app.state, Some(2));
    app.on_key(Key::Char('a'));
    assert_eq!(names(&app), Vec::<String>::new());
    app.on_key(Key::Backspace);
    assert_eq!(app.state, Some(0));
}

#[test]
fn navigation_wraps_and_tab_switches_focus() {
    let mut app = app_with(vec![("a", def(vec![])), ("b", def(vec![])), ("c", def(vec![]))]);
    app.on_key(Key::Up);
    assert_eq!(app.state, Some(2));
    app.on_key(Key::Down);
    assert_eq!(app.state, Some(0));
    // In the filter, j/k are typed characters.
    app.on_key(Key::Char('j'));
    assert_eq!(app.input, "j");
    app.on_key(Key::Backspace);
    app.on_key(Key::Tab);
    assert!(app.focus == Focus::Tasks);
    app.on_key(Key::Char('j'));
    assert_eq!(app.state, Some(1));
    app.on_key(Key::Char('k'));
    assert_eq!(app.state, Some(0));
    assert_eq!(app.input, "");
    app.on_key(Key::Tab);
    assert!(app.focus == Focus::Filter);
}

#[test]
fn enter_submits_plain_task_and_esc_quits() {
    let mut app = app_with(vec![("build", def(vec![]))]);
    match app.on_key(Key::Enter) {
        Action::Submit(cmd) => assert_eq!(cmd, "task build"),
        _ => panic!("expected a submit"),
    }
    assert!(matches!(app.on_key(Key::Esc), Action::Quit));
}

#[test]
fn enter_with_no_selection_does_nothing() {
    let mut app = app_with(vec![("build", def(vec![]))]);
    app.on_key(Key::Char('x'));
    assert!(matches!(app.on_key(Key::Enter), Action::Continue));
    assert!(matches!(app.mode, Mode::Browse));
}

#[test]
fn requires_flow_through_keys() {
    let vars = vec![var("NAME", &[]), var("ENV", &["dev", "staging", "prod"])];
    let mut app = app_with(vec![("deploy", def(vars))]);
    assert_eq!(app.command_text(), "task deploy  (Enter to set: NAME, ENV)");
    assert!(matches!(app.on_key(Key::Enter), Action::Continue));
    assert!(matches!(app.mode, Mode::Requires(_)));
    // A blank value is not accepted.
    app.on_key(Key::Char(' '));
    assert!(matches!(app.on_key(Key::Enter), Action::Continue));
    app.on_key(Key::Backspace);
    for c in "web ".chars() {
        app.on_key(Key::Char(c));
    }
    assert!(matches!(app.on_key(Key::Enter), Action::Continue));
    app.on_key(Key::Char('j'));
    app.on_key(Key::Down);
    app.on_key(Key::Up);
    match app.on_key(Key::Enter) {
        Action::Submit(cmd) => assert_eq!(cmd, "NAME=web ENV=staging task deploy"),
        _ => panic!("expected a submit"),
    }
}

#[test]
fn esc_cancels_requires_flow() {
    let mut app = app_with(vec![("deploy", def(vec![var("NAME", &[])]))]);
    app.on_key(Key::Enter);
    assert!(matches!(app.mode, Mode::Requires(_)));
    assert!(matches!(app.on_key(Key::Esc), Action::Continue));
    assert!(matches!(app.mode, Mode::Browse));
    assert!(app.accepts_keys());
}

#[test]
fn details_show_sections() {
    let mut d = def(vec![var("NAME", &[]), var("ENV", &["dev", "prod"])]);
    d.desc = Some("Deploy it".into());
    d.cmds = vec!["echo deploy".into()];
    let app = app_with(vec![("deploy", d)]);
    let lines: Vec<(bool, String)> = app
        .detail_lines()
        .into_iter()
        .map(|l| (l.kind == LineKind::Heading, l.text))
        .collect();
    let expected: Vec<(bool, String)> = vec![
        (true, "description:".into()),
        (false, "  Deploy it".into()),
        (false, "".into()),
        (true, "requires:".into()),
        (false, "  NAME (input)".into()),
        (false, "  ENV [dev, prod]".into()),
        (false, "".into()),
        (true, "commands:".into()),
        (false, "  $ echo deploy".into()),
    ];
    assert_eq!(lines, expected);
}

#[test]
fn command_text_without_selection() {
    let mut app = app_with(vec![("build", def(vec![]))]);
    assert_eq!(app.command_text(), "task build");
    app.on_key(Key::Char('q'));
    assert_eq!(app.command_text(), "(no task selected)");
    let lines = app.detail_lines();
    assert_eq!(lines[0].text, "No task selected");
}

#[test]
fn cli_flags() {
    let args = |v: &[&str]| v.iter().map(|s| s.to_string()).collect::<Vec<String>>();
    assert!(cli_request(&args(&[])) == CliRequest::Run);
    assert!(cli_request(&args(&["x", "--version"])) == CliRequest::Version);
    assert!(cli_request(&args(&["-h", "-V"])) == CliRequest::Help);
    assert!(cli_request(&args(&["--verbose"])) == CliRequest::Run);
}

/// How a POSIX shell reads one word made of plain characters, backslash
/// escapes and single-quoted segments.
fn shell_read(word: &str) -> String {
    let mut out = String::new();
    let mut quoted = false;
    let mut chars = word.chars();
    while let Some(c) = chars.next() {
        if quoted {
            if c == '\'' {
                quoted = false;
            } else {
                out.push(c);
            }
        } else if c == '\'' {
            quoted = true;
        } else if c == '\\' {
            if let Some(d) = chars.next() {
                out.push(d);
            } else {
                out.push(c);
            }
        } else {
            out.push(c);
        }
    }
    out
}

#[test]
fn shell_reads_back_quoted_values() {
    for v in ["prod", "", "hello world", "it's", "''", "a\\b", "$(rm -rf /)", "caf\u{e9} au lait", "x'y'z"] {
        assert_eq!(shell_read(&shell_quote(v)), v);
    }
}

#[test]
fn complete_preview_equals_submitted_command() {
    let vars = vec![var("NAME", &[]), var("ENV", &["dev", "prod"])];
    let mut state = RequiresState::new("deploy".into(), vars);
    assert_eq!(state.accept("my app".into()), None);
    let cmd = state.accept("prod".into()).expect("flow should complete");
    assert_eq!(state.preview_command(), cmd);
    assert_eq!(cmd, "NAME='my app' ENV=prod task deploy");
}

#[test]
fn filter_indices_keeps_matching_positions_in_order() {
    let names: Vec<String> = ["build", "deploy-prod", "docs:serve", "lint"].iter().map(|n| n.to_string()).collect();
    assert_eq!(filter_indices(&names, "d"), vec![0, 1, 2]);
    assert_eq!(filter_indices(&names, "dp"), vec![1]);
    assert_eq!(filter_indices(&names, ""), vec![0, 1, 2, 3]);
    assert_eq!(filter_indices(&names, "zz"), Vec::<usize>::new());
    // Names are taken as given: an upper-case name does not match a lower-case query.
    let upper = vec!["BUILD".to_string()];
    assert_eq!(filter_indices(&upper, "b"), Vec::<usize>::new());
}

#[test]
fn trim_drops_surrounding_white_space_only() {
    assert_eq!(trim("  a b \t\n"), "a b");
    assert_eq!(trim("\u{a0}x\u{3000}"), "x");
    assert_eq!(trim("   "), "");
    assert_eq!(trim(""), "");
    assert_eq!(trim("x"), "x");
}

#[test]
fn whitespace_flags_mark_each_character() {
    assert_eq!(whitespace_flags(" a\tb"), vec![true, false, true, false]);
    assert_eq!(whitespace_flags(""), Vec::<bool>::new());
}

#[test]
fn strip_flagged_drops_flagged_ends() {
    assert_eq!(strip_flagged("xaby", &vec![true, false, false, true]), "ab");
    assert_eq!(strip_flagged("xay", &vec![true, true, true]), "");
    assert_eq!(strip_flagged("a b", &vec![false, true, false]), "a b");
}

#[test]
fn enter_on_blank_text_keeps_waiting() {
    let mut state = RequiresState::new("deploy".into(), vec![var("NAME", &[])]);
    state.handle_key(Key::Char(' '));
    assert_eq!(state.handle_key(Key::Enter), None);
    assert!(state.answers.is_empty());
    state.handle_key(Key::Char('w'));
    state.handle_key(Key::Char(' '));
    assert_eq!(state.handle_key(Key::Enter), Some("NAME=w task deploy".to_string()));
}

/// The characters a POSIX shell reads bare in a word (outside single
/// quotes and not escaped), and whether a quote is left open.
fn bare_chars(word: &str) -> (String, bool) {
    let mut bare = String::new();
    let mut quoted = false;
    let mut chars = word.chars().peekable();
    while let Some(c) = chars.next() {
        if quoted {
            if c == '\'' {
                quoted = false;
            }
        } else if c == '\'' {
            quoted = true;
        } else if c == '\\' && chars.peek().is_some() {
            chars.next();
        } else {
            bare.push(c);
        }
    }
    (bare, quoted)
}

#[test]
fn quoted_values_are_one_word_with_nothing_expanded() {
    let special = " \t\n|&;<>()$`\\\"'*?[]#~{}!";
    for v in ["prod", "", "hello world", "it's", "$(rm -rf /)", "a;b|c", "*.rs", "~/x", "x\ty", "{a,b}"] {
        let w = shell_quote(v);
        let (bare, open) = bare_chars(&w);
        assert!(!w.is_empty());
        assert!(!open);
        assert!(bare.chars().all(|c| !special.contains(c)), "{w:?} has a bare special character");
        assert_eq!(shell_read(&w), v);
    }
}

#[test]
fn alnum_flags_mark_letters_and_digits() {
    assert_eq!(alnum_flags("a1-\u{e9} "), vec![true, true, false, true, false]);
    assert_eq!(alnum_flags(""), Vec::<bool>::new());
}

#[test]
fn quote_flagged_follows_the_flags() {
    assert_eq!(quote_flagged("ab", &vec![true, true]), "ab");
    assert_eq!(quote_flagged("ab", &vec![true, false]), "'ab'");
    assert_eq!(quote_flagged("a-b", &vec![true, false, true]), "a-b");
    assert_eq!(quote_flagged("it's", &vec![true, true, false, true]), r#"'it'\''s'"#);
    assert_eq!(quote_flagged("", &vec![]), "''");
}

#[test]
fn fuzzy_match_survives_shorter_needle_and_longer_haystack() {
    assert!(fuzzy_match("deploy", "dpy"));
    for k in 0..=3 {
        assert!(fuzzy_match("deploy", &"dpy"[..k]));
    }
    assert!(fuzzy_match("deploy", "dy"));
    assert!(fuzzy_match("docker:deploy-prod", "dpy"));
    assert!(!fuzzy_match("deploy", "ydp"));
}
