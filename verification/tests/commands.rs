use tinyshell::commands::builtins::{
    builtins, cd_outcome, expand_tilde, is_builtin, pwd_outcome, type_found, BuiltinKind,
};
use tinyshell::commands::command::Statement;
use tinyshell::commands::outcome::Outcome;
use tinyshell::commands::parser::{parse, parse_words, Out, Redirect};
use tinyshell::commands::stream::plan_output;
use tinyshell::commands::{
    background_outcome, execute, external_args, external_not_found, foreground_outcome, Action,
};
use tinyshell::shell::Shell;

fn output(o: &Outcome) -> (String, String) {
    match o {
        Outcome::Output { stdout, stderr } => (stdout.clone(), stderr.clone()),
        _ => panic!("not an output"),
    }
}

fn run(shell: &mut Shell, line: &str) -> Action {
    let stmt = Statement::parse(line).expect("a statement");
    execute(shell, &stmt)
}

fn done(a: Action) -> Outcome {
    match a {
        Action::Done(o) => o,
        _ => panic!("work remains"),
    }
}

fn strings(v: &[&str]) -> Vec<String> {
    v.iter().map(|s| s.to_string()).collect()
}

#[test]
fn words_split_on_whitespace() {
    assert_eq!(parse_words("echo hello   world"), strings(&["echo", "hello", "world"]));
    assert_eq!(parse_words("  \t "), Vec::<String>::new());
    assert_eq!(parse_words(""), Vec::<String>::new());
}

#[test]
fn quotes_and_backslashes() {
    assert_eq!(
        parse_words("echo 'a  b' \"c \\\" d\" e\\ f"),
        strings(&["echo", "a  b", "c \" d", "e f"])
    );
    assert_eq!(parse_words("\"a\\nb\""), strings(&["a\\nb"]));
    assert_eq!(parse_words("'it''s'"), strings(&["its"]));
    assert_eq!(parse_words("'' \"\""), Vec::<String>::new());
    assert_eq!(parse_words("'a\"b\\c'"), strings(&["a\"b\\c"]));
}

#[test]
fn bytes_become_characters() {
    // Each byte of the UTF-8 encoding becomes the character with its number.
    assert_eq!(parse_words("é"), strings(&["\u{c3}\u{a9}"]));
}

#[test]
fn parse_splits_command_and_args() {
    let input = parse("cat  a 'b c'");
    assert_eq!(input.command(), "cat");
    assert_eq!(input.args(), &strings(&["a", "b c"]));
}

#[test]
fn statement_with_redirections() {
    let stmt = Statement::parse("echo hi > out.txt 2>> err.txt").unwrap();
    assert_eq!(stmt.program, "echo");
    assert_eq!(stmt.args, strings(&["hi"]));
    assert_eq!(stmt.redirects.len(), 2);
    match &stmt.redirects[0] {
        Redirect::File { out, file, append } => {
            assert_eq!(*out, Out::StdOut);
            assert_eq!(file, "out.txt");
            assert!(!append);
        }
    }
    match &stmt.redirects[1] {
        Redirect::File { out, file, append } => {
            assert_eq!(*out, Out::StdErr);
            assert_eq!(file, "err.txt");
            assert!(append);
        }
    }
    let stmt = Statement::parse("ls 1>> a 2> b").unwrap();
    assert_eq!(stmt.args.len(), 0);
    assert_eq!(stmt.redirects.len(), 2);
}

#[test]
fn statement_edge_cases() {
    assert!(Statement::parse("").is_none());
    assert!(Statement::parse("   ").is_none());
    assert!(Statement::parse("> f").is_none());
    let stmt = Statement::parse("echo >").unwrap();
    assert_eq!(stmt.args, strings(&[">"]));
    assert!(stmt.redirects.is_empty());
}

#[test]
fn outcome_status_and_errors() {
    assert_eq!(Outcome::Quit(7).status(), 7);
    assert_eq!(Outcome::Nothing.status(), 0);
    let e = Outcome::from_err("bad".to_string());
    assert_eq!(e.status(), 0);
    assert_eq!(output(&e), (String::new(), "bad".to_string()));
}

#[test]
fn builtin_table() {
    let names: Vec<&str> = builtins().iter().map(|b| b.name).collect();
    assert_eq!(names, vec!["echo", "type", "pwd", "cd", "complete", "exit"]);
    assert_eq!(builtins()[3].kind, BuiltinKind::Cd);
    assert!(is_builtin("cd"));
    assert!(is_builtin("complete"));
    assert!(!is_builtin("ls"));
    assert!(!is_builtin("Echo"));
}

#[test]
fn echo_joins_arguments() {
    let mut shell = Shell::new();
    let o = done(run(&mut shell, "echo a   'b  c' d"));
    assert_eq!(output(&o), ("a b  c d".to_string(), String::new()));
    let o = done(run(&mut shell, "echo"));
    assert_eq!(output(&o), (String::new(), String::new()));
}

#[test]
fn exit_quits_and_sets_status() {
    let mut shell = Shell::new();
    shell.last_status = 5;
    let o = done(run(&mut shell, "exit 3"));
    assert!(matches!(o, Outcome::Quit(0)));
    assert_eq!(shell.last_status, 0);
}

#[test]
fn type_of_builtins_and_programs() {
    let mut shell = Shell::new();
    let o = done(run(&mut shell, "type echo"));
    assert_eq!(output(&o).0, "echo is a shell builtin");
    let o = done(run(&mut shell, "type"));
    assert_eq!(output(&o), (String::new(), "no arg".to_string()));
    match run(&mut shell, "type ls") {
        Action::LocateType(name) => assert_eq!(name, "ls"),
        _ => panic!("expected a search"),
    }
    assert_eq!(output(&type_found("ls", Some("/bin/ls"))).0, "ls is /bin/ls");
    assert_eq!(output(&type_found("nope", None)).0, "nope: not found");
}

#[test]
fn pwd_and_cd() {
    let mut shell = Shell::new();
    assert!(matches!(run(&mut shell, "pwd"), Action::CurrentDir));
    assert_eq!(output(&pwd_outcome(Some("/tmp".to_string()))).0, "/tmp");
    assert_eq!(
        output(&pwd_outcome(None)).1,
        "problem reading current directory"
    );
    let o = done(run(&mut shell, "cd"));
    assert_eq!(output(&o).1, "Need exactly one argument.");
    match run(&mut shell, "cd ~/src") {
        Action::ChangeDir(t) => assert_eq!(t, "~/src"),
        _ => panic!("expected a change of directory"),
    }
    assert!(matches!(cd_outcome("/tmp", true), Outcome::Nothing));
    assert_eq!(
        output(&cd_outcome("/nope", false)).1,
        "cd: /nope: No such file or directory"
    );
}

#[test]
fn tilde_expansion() {
    assert_eq!(expand_tilde("~", Some("/home/u")), "/home/u");
    assert_eq!(expand_tilde("~", None), "~");
    assert_eq!(expand_tilde("~/docs", Some("/home/u")), "/home/u/docs");
    assert_eq!(expand_tilde("~/docs", Some("/home/u/")), "/home/u/docs");
    assert_eq!(expand_tilde("~/docs", Some("")), "docs");
    assert_eq!(expand_tilde("~/", Some("/h")), "/h/");
    assert_eq!(expand_tilde("~//etc", Some("/h")), "/etc");
    assert_eq!(expand_tilde("~/docs", None), "~/docs");
    assert_eq!(expand_tilde("~x", Some("/h")), "~x");
    assert_eq!(expand_tilde("a/~", Some("/h")), "a/~");
}

#[test]
fn complete_builtin_registers_prints_removes() {
    let mut shell = Shell::new();
    let o = done(run(&mut shell, "complete -C '/bin/comp' git"));
    assert!(matches!(o, Outcome::Nothing));
    assert_eq!(shell.completion_script("git"), Some("/bin/comp"));
    let o = done(run(&mut shell, "complete -p git"));
    assert_eq!(output(&o).0, "complete -C '/bin/comp' git");
    let o = done(run(&mut shell, "complete -p cargo"));
    assert_eq!(output(&o).0, "complete: cargo: no completion specification");
    let o = done(run(&mut shell, "complete -p"));
    assert_eq!(output(&o).0, "no completion specification");
    let o = done(run(&mut shell, "complete -C other git"));
    assert!(matches!(o, Outcome::Nothing));
    assert_eq!(shell.completion_script("git"), Some("other"));
    let o = done(run(&mut shell, "complete -r git"));
    assert!(matches!(o, Outcome::Nothing));
    assert_eq!(shell.completion_script("git"), None);
}

#[test]
fn complete_builtin_errors() {
    let mut shell = Shell::new();
    let o = done(run(&mut shell, "complete -C only"));
    assert_eq!(output(&o), (String::new(), "Too many args".to_string()));
    let o = done(run(&mut shell, "complete -r"));
    assert_eq!(output(&o).1, "Too many args");
    let o = done(run(&mut shell, "complete -x a b"));
    assert!(matches!(o, Outcome::Nothing));
    let o = done(run(&mut shell, "complete"));
    assert!(matches!(o, Outcome::Nothing));
}

#[test]
fn completion_table() {
    let mut shell = Shell::default();
    shell.completions.insert("a".to_string(), "1".to_string());
    shell.completions.insert("b".to_string(), "2".to_string());
    shell.completions.insert("a".to_string(), "3".to_string());
    assert_eq!(shell.completions.get("a").map(|s| s.as_str()), Some("3"));
    assert_eq!(shell.completion_script("b"), Some("2"));
    shell.completions.remove("a");
    assert_eq!(shell.completion_script("a"), None);
    assert_eq!(shell.completion_script("b"), Some("2"));
    assert_eq!(shell.last_status, 0);
}

#[test]
fn external_programs() {
    let mut shell = Shell::new();
    shell.last_status = 9;
    assert!(matches!(run(&mut shell, "ls -l"), Action::External));
    assert_eq!(shell.last_status, 0);
    assert_eq!(output(&external_not_found("frob")).1, "frob: command not found");
    let (args, bg) = external_args(&strings(&["sleep", "5", "&"]));
    assert_eq!(args, strings(&["sleep", "5"]));
    assert!(bg);
    let (args, bg) = external_args(&strings(&["a", "b"]));
    assert_eq!(args, strings(&["a", "b"]));
    assert!(!bg);
    let (args, bg) = external_args(&[]);
    assert!(args.is_empty());
    assert!(!bg);
    assert_eq!(output(&background_outcome(4242)).0, "[1] 4242");
    assert_eq!(output(&background_outcome(0)).0, "[1] 0");
    assert_eq!(output(&background_outcome(u32::MAX)).0, "[1] 4294967295");
}

#[test]
fn program_output_is_trimmed_and_decoded() {
    let o = foreground_outcome(b"hello\n\n \t", b"");
    assert_eq!(output(&o), ("hello".to_string(), String::new()));
    let o = foreground_outcome(b"  a\nb\n", b"oops\r\n");
    assert_eq!(output(&o), ("  a\nb".to_string(), "oops".to_string()));
    let o = foreground_outcome(b"a\xffb\n", b"\xc3\xa9");
    assert_eq!(output(&o), ("a\u{fffd}b".to_string(), "é".to_string()));
}

#[test]
fn output_plan_without_redirections() {
    let o = Outcome::Output { stdout: "hi".to_string(), stderr: "err".to_string() };
    let p = plan_output(o, &[], false);
    assert_eq!(p.exit, None);
    assert!(p.writes.is_empty());
    assert_eq!(p.to_stdout, "hi\n");
    assert_eq!(p.to_stderr, "err\n");
    let o = Outcome::Output { stdout: "a\nb".to_string(), stderr: String::new() };
    let p = plan_output(o, &[], true);
    assert_eq!(p.to_stdout, "a\r\nb\r\n");
    assert_eq!(p.to_stderr, "");
    let p = plan_output(Outcome::Nothing, &[], true);
    assert_eq!(p.to_stdout, "");
    let p = plan_output(Outcome::Quit(3), &[], true);
    assert_eq!(p.exit, Some(3));
}

#[test]
fn output_plan_with_redirections() {
    let o = Outcome::Output { stdout: "hi".to_string(), stderr: "err".to_string() };
    let rs = vec![
        Redirect::File { out: Out::StdOut, file: "f1".to_string(), append: false },
        Redirect::File { out: Out::StdOut, file: "f2".to_string(), append: true },
        Redirect::File { out: Out::StdErr, file: "f3".to_string(), append: false },
    ];
    let p = plan_output(o, &rs, false);
    assert_eq!(p.writes.len(), 3);
    assert_eq!(p.writes[0].file, "f1");
    assert_eq!(p.writes[0].text, "hi\n");
    assert!(!p.writes[0].append);
    assert_eq!(p.writes[1].file, "f2");
    assert_eq!(p.writes[1].text, "");
    assert!(p.writes[1].append);
    assert_eq!(p.writes[2].text, "err\n");
    assert_eq!(p.to_stdout, "");
    assert_eq!(p.to_stderr, "");
    let rs = vec![Redirect::File { out: Out::StdErr, file: "e".to_string(), append: false }];
    let p = plan_output(Outcome::Output { stdout: "x".to_string(), stderr: String::new() }, &rs, false);
    assert_eq!(p.writes[0].text, "");
    assert_eq!(p.to_stdout, "x\n");
}

#[test]
fn unquoted_ascii_splits_like_split_ascii_whitespace() {
    for line in ["ls -l  /tmp", " \tcat\na\x0cb\r c ", "one", "a  b   c"] {
        let expected: Vec<String> = line.split_ascii_whitespace().map(String::from).collect();
        assert_eq!(parse_words(line), expected);
        let input = parse(line);
        let mut all = vec![input.command().to_string()];
        all.extend(input.args().clone());
        assert_eq!(all, expected);
    }
}
