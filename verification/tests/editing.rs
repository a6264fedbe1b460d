use tinyshell::completion::{
    can_complete, complete, complete_with_commands, complete_with_files, complete_with_script,
    exe_candidates, file_candidates, listing_dir, reduce, CompletionAction, CompletionStep,
};
use tinyshell::editor::{EditKey, EditResult, Feed, LineEditor};
use tinyshell::shell::Shell;

fn strings(v: &[&str]) -> Vec<String> {
    v.iter().map(|s| s.to_string()).collect()
}

fn replace(a: &CompletionAction) -> (usize, String, bool) {
    match a {
        CompletionAction::Replace { start, text, space } => (*start, text.clone(), *space),
        _ => panic!("not a replacement"),
    }
}

fn shown(f: Feed) -> (String, bool) {
    match f {
        Feed::Done { result: EditResult::StillEditing, output } => (output, true),
        Feed::Done { output, .. } => (output, false),
        Feed::Complete(_) => panic!("completion asked"),
    }
}

#[test]
fn reduce_single_candidate() {
    let a = reduce(0, "ec", strings(&["echo"]));
    assert_eq!(replace(&a), (0, "echo".to_string(), true));
    let a = reduce(2, "x", strings(&["x y "]));
    assert_eq!(replace(&a), (2, "x y ".to_string(), false));
}

#[test]
fn reduce_common_prefix_and_lists() {
    let a = reduce(4, "x", strings(&["xyz1", "xyz2"]));
    assert_eq!(replace(&a), (4, "xyz".to_string(), false));
    match reduce(0, "x", strings(&["xb", "xa", "xc"])) {
        CompletionAction::Show(list) => assert_eq!(list, strings(&["xa", "xb", "xc"])),
        _ => panic!("expected a list"),
    }
    assert!(matches!(reduce(3, "a", Vec::new()), CompletionAction::NoMatch));
}

#[test]
fn command_candidates() {
    assert_eq!(
        exe_candidates("e", &strings(&["echo", "env", "env"])),
        strings(&["echo", "exit", "env"])
    );
    assert_eq!(
        exe_candidates("", &[]),
        strings(&["echo", "type", "pwd", "cd", "complete", "exit"])
    );
    assert_eq!(exe_candidates("zz", &strings(&["zzz"])), strings(&["zzz"]));
    let a = complete_with_commands(0, "ech", &[]);
    assert_eq!(replace(&a), (0, "echo".to_string(), true));
}

#[test]
fn file_name_candidates() {
    assert_eq!(
        file_candidates("src/ma", &strings(&["main.rs", "lib.rs"]), &strings(&["macros"])),
        strings(&["src/main.rs", "src/macros/"])
    );
    assert_eq!(
        file_candidates("RE", &strings(&["README.md", "Cargo.toml"]), &strings(&["REx"])),
        strings(&["README.md", "REx/"])
    );
    assert_eq!(
        file_candidates("/us", &strings(&["usr"]), &[]),
        strings(&["usr"])
    );
    assert_eq!(listing_dir("src/ma"), Some("src".to_string()));
    assert_eq!(listing_dir("a/b/c"), Some("a/b".to_string()));
    assert_eq!(listing_dir("x"), None);
    assert_eq!(listing_dir("/us"), Some(String::new()));
    let a = complete_with_files(4, "READ", &strings(&["README.md"]), &[]);
    assert_eq!(replace(&a), (4, "README.md".to_string(), true));
}

#[test]
fn completion_steps() {
    let mut shell = Shell::new();
    match complete(&shell, "ec") {
        CompletionStep::Commands { word_start, word } => {
            assert_eq!(word_start, 0);
            assert_eq!(word, "ec");
        }
        _ => panic!("expected command names"),
    }
    match complete(&shell, "cat fi") {
        CompletionStep::Files { word_start, word } => {
            assert_eq!(word_start, 4);
            assert_eq!(word, "fi");
        }
        _ => panic!("expected file names"),
    }
    shell.completions.insert("git".to_string(), "/bin/gitcomp".to_string());
    match complete(&shell, "git ") {
        CompletionStep::Script { start, script, args } => {
            assert_eq!(start, 4);
            assert_eq!(script, "/bin/gitcomp");
            assert_eq!(args, strings(&["git", "", ""]));
        }
        _ => panic!("expected a script"),
    }
    match complete(&shell, "git remote set") {
        CompletionStep::Script { start, script, args } => {
            assert_eq!(start, 11);
            assert_eq!(script, "/bin/gitcomp");
            assert_eq!(args, strings(&["git", "set", "remote"]));
        }
        _ => panic!("expected a script"),
    }
    // The previous word is cut from the untrimmed prefix at an offset taken
    // in the trimmed one.
    match complete(&shell, "  git remote ") {
        CompletionStep::Script { start, args, .. } => {
            assert_eq!(start, 13);
            assert_eq!(args, strings(&["git", "", "t remote"]));
        }
        _ => panic!("expected a script"),
    }
    match complete(&shell, "cargo b") {
        CompletionStep::Files { word_start, word } => {
            assert_eq!(word_start, 6);
            assert_eq!(word, "b");
        }
        _ => panic!("expected file names"),
    }
}

#[test]
fn completion_needs_single_byte_separators() {
    assert!(can_complete("a b"));
    assert!(can_complete(""));
    assert!(can_complete("é é"));
    assert!(!can_complete("a\u{a0}b"));
}

#[test]
fn script_output_becomes_the_text() {
    let a = complete_with_script(5, b"remote\n");
    assert_eq!(replace(&a), (5, "remote".to_string(), true));
    let a = complete_with_script(2, b"");
    assert_eq!(replace(&a), (2, String::new(), true));
}

#[test]
fn typing_and_submitting() {
    let shell = Shell::new();
    let mut ed = LineEditor::new(&shell, false);
    assert_eq!(ed.render(), "\r$ \x1b[K");
    assert_eq!(shown(ed.feed_key(EditKey::Char('l'))), ("l".to_string(), true));
    assert_eq!(shown(ed.feed_key(EditKey::Char('s'))), ("s".to_string(), true));
    assert_eq!(ed.line(), "ls");
    assert_eq!(ed.cursor(), 2);
    assert_eq!(shown(ed.feed_key(EditKey::Other)), (String::new(), true));
    match ed.feed_key(EditKey::Char('\n')) {
        Feed::Done { result: EditResult::Submitted(l), output } => {
            assert_eq!(l, "ls");
            assert_eq!(output, "\n");
        }
        _ => panic!("expected the line"),
    }
    assert_eq!(ed.line(), "");
}

#[test]
fn backspace_and_cancel() {
    let shell = Shell::new();
    let mut ed = LineEditor::new(&shell, false);
    ed.feed_key(EditKey::Char('a'));
    ed.feed_key(EditKey::Char('b'));
    assert_eq!(shown(ed.feed_key(EditKey::Backspace)), ("\u{8} \u{8}".to_string(), true));
    assert_eq!(ed.line(), "a");
    assert_eq!(ed.cursor(), 1);
    assert!(matches!(
        ed.feed_key(EditKey::Ctrl('c')),
        Feed::Done { result: EditResult::Cancelled, .. }
    ));
    assert_eq!(ed.cancel(), (Some("a".to_string()), "\n".to_string()));
    assert_eq!(ed.cancel(), (None, String::new()));
    let mut ed = LineEditor::new(&shell, true);
    ed.feed_key(EditKey::Char('x'));
    ed.feed_key(EditKey::Char('y'));
    assert_eq!(shown(ed.feed_key(EditKey::Backspace)), ("\r$ x\x1b[K".to_string(), true));
    assert_eq!(shown(ed.feed_key(EditKey::Backspace)), ("\r$ \x1b[K".to_string(), true));
    assert_eq!(shown(ed.feed_key(EditKey::Backspace)), (String::new(), true));
    assert_eq!(ed.end_of_input(), None);
    ed.feed_key(EditKey::Char('z'));
    assert_eq!(ed.end_of_input(), Some("z".to_string()));
}

#[test]
fn tab_completes_and_lists() {
    let shell = Shell::new();
    let mut ed = LineEditor::new(&shell, true);
    ed.feed_key(EditKey::Char('e'));
    ed.feed_key(EditKey::Char('c'));
    let step = match ed.feed_key(EditKey::Char('\t')) {
        Feed::Complete(step) => step,
        _ => panic!("expected a completion"),
    };
    let action = match step {
        CompletionStep::Commands { word_start, word } => complete_with_commands(word_start, &word, &[]),
        _ => panic!("expected command names"),
    };
    assert!(ed.can_apply(&action));
    assert_eq!(ed.finish_tab(action), "\r$ echo \x1b[K");
    assert_eq!(ed.line(), "echo ");
    assert_eq!(ed.cursor(), 5);

    ed.feed_key(EditKey::Char('x'));
    let out = ed.finish_tab(CompletionAction::Show(strings(&["xa", "xb"])));
    assert_eq!(out, "\x07\r$ echo x\x1b[K");
    assert!(ed.holds_list());
    assert_eq!(
        shown(ed.feed_key(EditKey::Char('\t'))),
        ("\r\nxa  xb\r\n\r$ echo x\x1b[K".to_string(), true)
    );
    assert!(!ed.holds_list());
    assert_eq!(ed.finish_tab(CompletionAction::NoMatch), "\x07\r$ echo x\x1b[K");
}

#[test]
fn applying_replacements() {
    let shell = Shell::new();
    let mut ed = LineEditor::new(&shell, false);
    for c in "cd sr".chars() {
        ed.feed_key(EditKey::Char(c));
    }
    let a = CompletionAction::Replace { start: 3, text: "src/".to_string(), space: true };
    assert!(ed.can_apply(&a));
    ed.apply(a);
    assert_eq!(ed.line(), "cd src/");
    assert_eq!(ed.cursor(), 7);
    let a = CompletionAction::Replace { start: 99, text: "x".to_string(), space: false };
    ed.apply(a);
    assert_eq!(ed.line(), "cd src/x");
    let mut ed = LineEditor::new(&shell, false);
    ed.feed_key(EditKey::Char('é'));
    let a = CompletionAction::Replace { start: 1, text: "x".to_string(), space: false };
    assert!(!ed.can_apply(&a));
    let a = CompletionAction::Replace { start: 2, text: "x".to_string(), space: false };
    assert!(ed.can_apply(&a));
    ed.apply(a);
    assert_eq!(ed.line(), "éx");
    assert_eq!(ed.cursor(), 3);
}
