//! The builtin commands and the parts of their work that need no operating system.
use vstd::prelude::*;
use crate::commands::outcome::{output_is, Outcome};
use crate::commands::parser::views;
use crate::commands::Action;
use crate::text::{opt_view, join_path, join_strings, join_words, path_join, str_eq, starts_with, has_prefix};

verus! {

/// The builtin commands.
#[derive(PartialEq, Eq, Structural, Clone, Copy, Debug)]
pub enum BuiltinKind {
    Echo,
    Type,
    Pwd,
    Cd,
    Complete,
    Exit,
}

/// A builtin command and its name.
pub struct Builtin {
    pub name: &'static str,
    pub kind: BuiltinKind,
}

/// The builtins by name, in the order in which completion offers them.
pub open spec fn builtin_table() -> Seq<(Seq<char>, BuiltinKind)> {
    seq![
        ("echo"@, BuiltinKind::Echo),
        ("type"@, BuiltinKind::Type),
        ("pwd"@, BuiltinKind::Pwd),
        ("cd"@, BuiltinKind::Cd),
        ("complete"@, BuiltinKind::Complete),
        ("exit"@, BuiltinKind::Exit),
    ]
}

/// The names of the builtins, in table order.
pub open spec fn builtin_names() -> Seq<Seq<char>> {
    builtin_table().map_values(|e: (Seq<char>, BuiltinKind)| e.0)
}

/// The kind of the first entry of `t` named `name`.
pub open spec fn find_in_table(t: Seq<(Seq<char>, BuiltinKind)>, name: Seq<char>) -> Option<
    BuiltinKind,
>
    decreases t.len(),
{
    if t.len() == 0 {
        None
    } else if t[0].0 == name {
        Some(t[0].1)
    } else {
        find_in_table(t.skip(1), name)
    }
}

/// The builtin named `name`, if there is one.
pub open spec fn builtin_kind(name: Seq<char>) -> Option<BuiltinKind> {
    find_in_table(builtin_table(), name)
}

/// The builtins with their names.
pub fn builtins() -> (r: Vec<Builtin>)
    ensures
        r@.map_values(|b: Builtin| (b.name@, b.kind)) == builtin_table(),
{
    let r = vec![
        Builtin { name: "echo", kind: BuiltinKind::Echo },
        Builtin { name: "type", kind: BuiltinKind::Type },
        Builtin { name: "pwd", kind: BuiltinKind::Pwd },
        Builtin { name: "cd", kind: BuiltinKind::Cd },
        Builtin { name: "complete", kind: BuiltinKind::Complete },
        Builtin { name: "exit", kind: BuiltinKind::Exit },
    ];
    assert(r@.map_values(|b: Builtin| (b.name@, b.kind)) =~= builtin_table());
    r
}

/// The builtin named `program`, if there is one.
pub fn find_builtin(program: &str) -> (r: Option<BuiltinKind>)
    ensures
        r == builtin_kind(program@),
{
    let table = builtins();
    let ghost t = table@.map_values(|b: Builtin| (b.name@, b.kind));
    let mut i: usize = 0;
    assert(t.skip(0) =~= t);
    while i < table.len()
        invariant
            i <= table@.len(),
            t == table@.map_values(|b: Builtin| (b.name@, b.kind)),
            t == builtin_table(),
            find_in_table(t, program@) == find_in_table(t.skip(i as int), program@),
        decreases table@.len() - i,
    {
        let ghost rest = t.skip(i as int);
        assert(rest[0] == (table@[i as int].name@, table@[i as int].kind));
        assert(rest.skip(1) =~= t.skip(i + 1));
        if str_eq(table[i].name, program) {
            return Some(table[i].kind);
        }
        i = i + 1;
    }
    None
}

/// Whether `program` names a builtin.
pub fn is_builtin(program: &str) -> (r: bool)
    ensures
        r == builtin_kind(program@) is Some,
{
    find_builtin(program).is_some()
}

/// The names of the builtins that start with `prefix`, in table order.
pub fn builtin_names_starting_with(prefix: &str) -> (r: Vec<String>)
    ensures
        views(r@) == builtin_names().filter(|n: Seq<char>| has_prefix(n, prefix@)),
{
    let table = builtins();
    let ghost names = builtin_names();
    let ghost keep = |n: Seq<char>| has_prefix(n, prefix@);
    let mut r: Vec<String> = Vec::new();
    let mut i: usize = 0;
    while i < table.len()
        invariant
            i <= table@.len(),
            table@.map_values(|b: Builtin| (b.name@, b.kind)) == builtin_table(),
            names == builtin_names(),
            names.len() == table@.len(),
            keep == (|n: Seq<char>| has_prefix(n, prefix@)),
            views(r@) == names.take(i as int).filter(keep),
        decreases table@.len() - i,
    {
        let ghost before = views(r@);
        assert(names[i as int] == table@[i as int].name@);
        assert(names.take(i + 1).drop_last() =~= names.take(i as int));
        assert(names.take(i + 1).last() == names[i as int]);
        reveal_with_fuel(Seq::filter, 1);
        if starts_with(table[i].name, prefix) {
            let s = table[i].name.to_owned();
            r.push(s);
            assert(views(r@) =~= before.push(names[i as int]));
        } else {
            assert(views(r@) =~= before);
        }
        i = i + 1;
    }
    assert(names.take(table@.len() as int) =~= names);
    r
}

/// `echo`: the arguments, separated by single spaces.
pub fn echo(args: &[String]) -> (r: Outcome)
    ensures
        output_is(r, join_words(views(args@), " "@), Seq::empty()),
{
    Outcome::Output { stdout: join_strings(args, " "), stderr: String::new() }
}

/// What `type` does with the arguments `args`, as far as it needs no search
/// of the program path.
pub open spec fn type_step(args: Seq<Seq<char>>, r: Action) -> bool {
    if args.len() == 0 {
        r matches Action::Done(o) && output_is(o, Seq::empty(), "no arg"@)
    } else if builtin_kind(args[0]) is Some {
        r matches Action::Done(o) && output_is(o, args[0] + " is a shell builtin"@, Seq::empty())
    } else {
        r matches Action::LocateType(name) && name@ == args[0]
    }
}

/// `type`: reports a builtin at once; for any other name, asks for a search
/// of the program path, whose result goes to `type_found`.
pub fn type_cmd(args: &[String]) -> (r: Action)
    ensures
        type_step(views(args@), r),
{
    if args.len() == 0 {
        return Action::Done(Outcome::Output { stdout: String::new(), stderr: String::from_str("no arg") });
    }
    let program = args[0].as_str();
    if is_builtin(program) {
        let mut s = program.to_owned();
        s.append(" is a shell builtin");
        Action::Done(Outcome::Output { stdout: s, stderr: String::new() })
    } else {
        Action::LocateType(args[0].clone())
    }
}

/// The text of `type` for a program that is no builtin, given where the
/// search of the program path found it.
pub open spec fn type_text(program: Seq<char>, found: Option<Seq<char>>) -> Seq<char> {
    match found {
        Some(path) => program + " is "@ + path,
        None => program + ": not found"@,
    }
}

/// `type` for a program that is no builtin, given the executable that the
/// search of the program path found for it.
pub fn type_found(program: &str, found: Option<&str>) -> (r: Outcome)
    ensures
        output_is(r, type_text(program@, opt_view(found)), Seq::empty()),
{
    let mut s = program.to_owned();
    match found {
        Some(path) => {
            s.append(" is ");
            s.append(path);
        },
        None => {
            s.append(": not found");
        },
    }
    Outcome::Output { stdout: s, stderr: String::new() }
}

/// `pwd`, given the current directory, or `None` where it could not be read.
pub fn pwd_outcome(dir: Option<String>) -> (r: Outcome)
    ensures
        match dir {
            Some(d) => output_is(r, d@, Seq::empty()),
            None => output_is(r, Seq::empty(), "problem reading current directory"@),
        },
{
    match dir {
        Some(d) => Outcome::Output { stdout: d, stderr: String::new() },
        None => Outcome::Output {
            stdout: String::new(),
            stderr: String::from_str("problem reading current directory"),
        },
    }
}

/// What `cd` does with the arguments `args` before touching the file system.
pub open spec fn cd_step(args: Seq<Seq<char>>, r: Action) -> bool {
    if args.len() == 0 {
        r matches Action::Done(o) && output_is(o, Seq::empty(), "Need exactly one argument."@)
    } else {
        r matches Action::ChangeDir(target) && target@ == args[0]
    }
}

/// `cd`: asks to change to the directory that the first argument names.
/// The caller expands it with `expand_tilde` and reports to `cd_outcome`.
pub fn cd_cmd(args: &[String]) -> (r: Action)
    ensures
        cd_step(views(args@), r),
{
    if args.len() == 0 {
        Action::Done(Outcome::from_err(String::from_str("Need exactly one argument.")))
    } else {
        Action::ChangeDir(args[0].clone())
    }
}

/// `cd` once the change of directory to `target` succeeded or failed.
pub fn cd_outcome(target: &str, changed: bool) -> (r: Outcome)
    ensures
        changed ==> r is Nothing,
        !changed ==> output_is(r, Seq::empty(), "cd: "@ + target@ + ": No such file or directory"@),
{
    if changed {
        Outcome::Nothing
    } else {
        let mut s = String::from_str("cd: ");
        s.append(target);
        s.append(": No such file or directory");
        Outcome::from_err(s)
    }
}

/// The directory that a `cd` argument names, given the home directory:
/// `~` is the home directory, `~/rest` is `rest` in the home directory, and
/// anything else, or a `~` form without a home directory, stays as it is.
pub open spec fn tilde_target(path: Seq<char>, home: Option<Seq<char>>) -> Seq<char> {
    if path == seq!['~'] {
        match home {
            Some(h) => h,
            None => path,
        }
    } else if has_prefix(path, seq!['~', '/']) {
        match home {
            Some(h) => path_join(h, path.skip(2)),
            None => path,
        }
    } else {
        path
    }
}

/// Expands a leading `~` of `path` with the home directory `home`. See `tilde_target`.
pub fn expand_tilde(path: &str, home: Option<&str>) -> (r: String)
    ensures
        r@ == tilde_target(path@, opt_view(home)),
{
    let n = path.unicode_len();
    let is_tilde = n == 1 && path.get_char(0) == '~';
    if is_tilde {
        assert(path@ =~= seq!['~']);
        return match home {
            Some(h) => h.to_owned(),
            None => path.to_owned(),
        };
    }
    assert(path@ != seq!['~']);
    let has_home_prefix = n >= 2 && path.get_char(0) == '~' && path.get_char(1) == '/';
    if has_home_prefix {
        assert(path@.take(2) =~= seq!['~', '/']);
        match home {
            Some(h) => {
                let rest = path.substring_char(2, n);
                assert(rest@ =~= path@.skip(2));
                join_path(h, rest)
            },
            None => path.to_owned(),
        }
    } else {
        assert(!has_prefix(path@, seq!['~', '/'])) by {
            if n >= 2 {
                assert(path@.take(2)[0] == path@[0]);
                assert(path@.take(2)[1] == path@[1]);
            }
        }
        path.to_owned()
    }
}

} // verus!
