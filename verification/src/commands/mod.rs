//! Running a statement: the builtins, and what an external program needs.
use vstd::prelude::*;
use vstd::utf8::{decode_utf8, valid_utf8};
use crate::commands::builtins::{builtin_kind, cd_cmd, cd_step, echo, find_builtin, type_cmd, type_step, BuiltinKind};
use crate::commands::command::Statement;
use crate::commands::complete::{complete, complete_effect};
use crate::commands::outcome::{output_is, status_of, Outcome};
use crate::commands::parser::views;
use crate::shell::Shell;
use crate::text::{decimal, decimal_string, join_words, str_eq, trim_end_bytes, trim_end_len};

pub mod builtins;
pub mod command;
pub mod complete;
pub mod outcome;
pub mod parser;
pub mod stream;

verus! {

/// What the shell must do next for a statement.
pub enum Action {
    /// The statement ran; here is its outcome.
    Done(Outcome),
    /// `type` must know where the program path holds the named executable;
    /// the answer goes to `builtins::type_found`.
    LocateType(String),
    /// `pwd` must know the current directory; it goes to `builtins::pwd_outcome`.
    CurrentDir,
    /// `cd` must change to the named directory, after `builtins::expand_tilde`;
    /// whether that worked goes to `builtins::cd_outcome`.
    ChangeDir(String),
    /// The program is no builtin: it must be found on the program path and
    /// run, see `external_not_found`, `external_args`, `background_outcome`
    /// and `foreground_outcome`.
    External,
}

/// What the builtin `kind` does with the arguments `args`, `table` and
/// `after` being the registered completion scripts before and after.
pub open spec fn builtin_step(
    kind: BuiltinKind,
    args: Seq<Seq<char>>,
    table: Map<Seq<char>, Seq<char>>,
    r: Action,
    after: Map<Seq<char>, Seq<char>>,
) -> bool {
    match kind {
        BuiltinKind::Echo => r matches Action::Done(o) && output_is(
            o,
            join_words(args, " "@),
            Seq::empty(),
        ) && after == table,
        BuiltinKind::Type => type_step(args, r) && after == table,
        BuiltinKind::Pwd => r is CurrentDir && after == table,
        BuiltinKind::Cd => cd_step(args, r) && after == table,
        BuiltinKind::Complete => r matches Action::Done(o) && complete_effect(table, args, o, after),
        BuiltinKind::Exit => r matches Action::Done(o) && o == Outcome::Quit(0) && after == table,
    }
}

/// Runs the statement `stmt` as far as the shell can on its own: a builtin
/// named by the program runs with the arguments; any other program is
/// external. The last status becomes the status of the outcome; where work
/// remains to be done, the outcome that follows is never `Quit`, so the last
/// status becomes 0.
pub fn execute(shell: &mut Shell, stmt: &Statement) -> (r: Action)
    ensures
        match builtin_kind(stmt.program@) {
            Some(kind) => builtin_step(
                kind,
                views(stmt.args@),
                old(shell).completions@,
                r,
                final(shell).completions@,
            ),
            None => r is External && final(shell).completions@ == old(shell).completions@,
        },
        final(shell).last_status == (match r {
            Action::Done(o) => status_of(o),
            _ => 0,
        }),
{
    let args = stmt.args.as_slice();
    let action = match find_builtin(stmt.program.as_str()) {
        Some(BuiltinKind::Echo) => Action::Done(echo(args)),
        Some(BuiltinKind::Type) => type_cmd(args),
        Some(BuiltinKind::Pwd) => Action::CurrentDir,
        Some(BuiltinKind::Cd) => cd_cmd(args),
        Some(BuiltinKind::Complete) => Action::Done(complete(shell, args)),
        Some(BuiltinKind::Exit) => Action::Done(Outcome::Quit(0)),
        None => Action::External,
    };
    shell.last_status = match &action {
        Action::Done(o) => o.status(),
        _ => 0,
    };
    action
}

/// The outcome for a program that the program path does not hold.
pub fn external_not_found(program: &str) -> (r: Outcome)
    ensures
        output_is(r, Seq::empty(), program@ + ": command not found"@),
{
    let mut s = program.to_owned();
    s.append(": command not found");
    Outcome::from_err(s)
}

/// An external program runs in the background when its last argument is `&`.
pub open spec fn runs_in_background(args: Seq<Seq<char>>) -> bool {
    args.len() > 0 && args.last() == "&"@
}

/// The arguments to start an external program with, and whether it runs in
/// the background: a final `&` is dropped and asks for the background.
pub fn external_args(args: &[String]) -> (r: (Vec<String>, bool))
    ensures
        r.1 == runs_in_background(views(args@)),
        r.1 ==> views(r.0@) == views(args@).drop_last(),
        !r.1 ==> views(r.0@) == views(args@),
{
    let n = args.len();
    let background = n > 0 && str_eq(args[n - 1].as_str(), "&");
    let keep = if background {
        n - 1
    } else {
        n
    };
    let mut v: Vec<String> = Vec::new();
    let mut i: usize = 0;
    while i < keep
        invariant
            keep <= n == args@.len(),
            i <= keep,
            views(v@) == views(args@).take(i as int),
        decreases keep - i,
    {
        let ghost before = views(v@);
        let a = args[i].clone();
        v.push(a);
        assert(views(v@) =~= before.push(args@[i as int]@));
        assert(views(args@).take(i + 1) =~= views(args@).take(i as int).push(args@[i as int]@));
        i = i + 1;
    }
    assert(views(args@).take(n as int) =~= views(args@));
    assert(n > 0 ==> views(args@).take(n - 1) =~= views(args@).drop_last());
    (v, background)
}

/// The outcome of starting an external program in the background as the
/// process `pid`: `[1] pid`.
pub fn background_outcome(pid: u32) -> (r: Outcome)
    ensures
        output_is(r, "[1] "@ + decimal(pid as nat), Seq::empty()),
{
    let mut s = String::from_str("[1] ");
    let d = decimal_string(pid);
    s.append(d.as_str());
    Outcome::Output { stdout: s, stderr: String::new() }
}

/// What `String::from_utf8_lossy` makes of `bytes`.
pub uninterp spec fn lossy_utf8(bytes: Seq<u8>) -> Seq<char>;

/// Calls `String::from_utf8_lossy`. The result is a function of the bytes
/// alone, and for valid UTF-8 it is the text that the bytes encode; what it
/// holds in place of invalid sequences is left unsaid.
#[verifier::external_body]
fn utf8_lossy(bytes: &[u8]) -> (r: String)
    ensures
        r@ == lossy_utf8(bytes@),
        valid_utf8(bytes@) ==> r@ == decode_utf8(bytes@),
{
    String::from_utf8_lossy(bytes).into_owned()
}

/// The text of the output `bytes` of a program: without trailing ASCII
/// whitespace, decoded as UTF-8 with invalid sequences replaced.
pub fn output_text(bytes: &[u8]) -> (r: String)
    ensures
        r@ == lossy_utf8(trim_end_bytes(bytes@)),
        valid_utf8(trim_end_bytes(bytes@)) ==> r@ == decode_utf8(trim_end_bytes(bytes@)),
{
    let n = trim_end_len(bytes);
    let mut v: Vec<u8> = Vec::new();
    let mut i: usize = 0;
    while i < n
        invariant
            n <= bytes@.len(),
            i <= n,
            v@ == bytes@.take(i as int),
        decreases n - i,
    {
        v.push(bytes[i]);
        i = i + 1;
        assert(v@ =~= bytes@.take(i as int));
    }
    utf8_lossy(v.as_slice())
}

/// The outcome of an external program that ran to its end and wrote
/// `stdout` and `stderr`.
pub fn foreground_outcome(stdout: &[u8], stderr: &[u8]) -> (r: Outcome)
    ensures
        output_is(r, lossy_utf8(trim_end_bytes(stdout@)), lossy_utf8(trim_end_bytes(stderr@))),
{
    let err = output_text(stderr);
    let out = output_text(stdout);
    Outcome::Output { stdout: out, stderr: err }
}

} // verus!
