//! The `complete` builtin: registering, printing and removing completion scripts.
use vstd::prelude::*;
use crate::commands::outcome::{output_is, Outcome};
use crate::commands::parser::views;
use crate::shell::Shell;
use crate::text::str_eq;

verus! {

/// The flag of a `complete` command line: its first argument, or nothing.
pub open spec fn flag_of(args: Seq<Seq<char>>) -> Seq<char> {
    if args.len() > 0 {
        args[0]
    } else {
        Seq::empty()
    }
}

/// The arguments after the flag.
pub open spec fn operands_of(args: Seq<Seq<char>>) -> Seq<Seq<char>> {
    if args.len() > 0 {
        args.skip(1)
    } else {
        Seq::empty()
    }
}

/// What `complete -p` prints for the operands `ops`, given the registered scripts.
pub open spec fn print_text(table: Map<Seq<char>, Seq<char>>, ops: Seq<Seq<char>>) -> Seq<char> {
    if ops.len() == 0 {
        "no completion specification"@
    } else if table.contains_key(ops[0]) {
        "complete -C '"@ + table[ops[0]] + "' "@ + ops[0]
    } else {
        "complete: "@ + ops[0] + ": no completion specification"@
    }
}

/// The message of a `complete` command with too few operands.
pub open spec fn too_few_operands() -> Seq<char> {
    "Too many args"@
}

/// What the `complete` builtin with the arguments `args` does: `-p` prints,
/// `-C` registers, `-r` removes; any other flag, or none, does nothing.
/// `table` and `after` are the registered scripts before and after, `r` the outcome.
pub open spec fn complete_effect(
    table: Map<Seq<char>, Seq<char>>,
    args: Seq<Seq<char>>,
    r: Outcome,
    after: Map<Seq<char>, Seq<char>>,
) -> bool {
    let flag = flag_of(args);
    let ops = operands_of(args);
    if flag == "-p"@ {
        output_is(r, print_text(table, ops), Seq::empty()) && after == table
    } else if flag == "-C"@ {
        if ops.len() >= 2 {
            r is Nothing && after == table.insert(ops[1], ops[0])
        } else {
            output_is(r, Seq::empty(), too_few_operands()) && after == table
        }
    } else if flag == "-r"@ {
        if ops.len() >= 1 {
            r is Nothing && after == table.remove(ops[0])
        } else {
            output_is(r, Seq::empty(), too_few_operands()) && after == table
        }
    } else {
        r is Nothing && after == table
    }
}

/// Splits the arguments of `complete` into the flag and the operands.
pub fn parse_complete_args(args: &[String]) -> (r: (String, Vec<String>))
    ensures
        r.0@ == flag_of(views(args@)),
        views(r.1@) == operands_of(views(args@)),
{
    if args.len() == 0 {
        return (String::new(), Vec::new());
    }
    let mut rest: Vec<String> = Vec::new();
    let mut i: usize = 1;
    while i < args.len()
        invariant
            1 <= i <= args@.len(),
            views(rest@) == views(args@).subrange(1, i as int),
        decreases args@.len() - i,
    {
        let ghost before = views(rest@);
        let a = args[i].clone();
        assert(a@ == args@[i as int]@);
        rest.push(a);
        assert(views(rest@) =~= before.push(args@[i as int]@));
        i = i + 1;
        assert(views(rest@) =~= views(args@).subrange(1, i as int));
    }
    assert(views(args@).subrange(1, args@.len() as int) =~= views(args@).skip(1));
    (args[0].clone(), rest)
}

/// `complete -p`: shows the script registered for the first operand.
pub fn print_completion(shell: &Shell, ops: &[String]) -> (r: Outcome)
    ensures
        output_is(r, print_text(shell.completions@, views(ops@)), Seq::empty()),
{
    let stdout = if ops.len() == 0 {
        String::from_str("no completion specification")
    } else {
        let cmd = ops[0].as_str();
        match shell.completion_script(cmd) {
            Some(script) => {
                let mut s = String::from_str("complete -C '");
                s.append(script);
                s.append("' ");
                s.append(cmd);
                s
            },
            None => {
                let mut s = String::from_str("complete: ");
                s.append(cmd);
                s.append(": no completion specification");
                s
            },
        }
    };
    Outcome::Output { stdout, stderr: String::new() }
}

/// `complete -C script command`: registers `script` for `command`.
pub fn register_completion(shell: &mut Shell, ops: &[String]) -> (r: Outcome)
    ensures
        final(shell).last_status == old(shell).last_status,
        ops@.len() >= 2 ==> r is Nothing && final(shell).completions@ == old(
            shell,
        ).completions@.insert(ops@[1]@, ops@[0]@),
        ops@.len() < 2 ==> output_is(r, Seq::empty(), too_few_operands())
            && final(shell).completions@ == old(shell).completions@,
{
    if ops.len() < 2 {
        return Outcome::from_err(String::from_str("Too many args"));
    }
    shell.completions.insert(ops[1].clone(), ops[0].clone());
    Outcome::Nothing
}

/// `complete -r command`: forgets the script registered for `command`.
pub fn remove_completion(shell: &mut Shell, ops: &[String]) -> (r: Outcome)
    ensures
        final(shell).last_status == old(shell).last_status,
        ops@.len() >= 1 ==> r is Nothing && final(shell).completions@ == old(
            shell,
        ).completions@.remove(ops@[0]@),
        ops@.len() < 1 ==> output_is(r, Seq::empty(), too_few_operands())
            && final(shell).completions@ == old(shell).completions@,
{
    if ops.len() < 1 {
        return Outcome::from_err(String::from_str("Too many args"));
    }
    shell.completions.remove(ops[0].as_str());
    Outcome::Nothing
}

/// The `complete` builtin. `-p` prints, `-C` registers, `-r` removes; any
/// other flag, or none, does nothing.
pub fn complete(shell: &mut Shell, args: &[String]) -> (r: Outcome)
    ensures
        final(shell).last_status == old(shell).last_status,
        complete_effect(old(shell).completions@, views(args@), r, final(shell).completions@),
{
    let (flag, ops) = parse_complete_args(args);
    if str_eq(flag.as_str(), "-p") {
        print_completion(shell, ops.as_slice())
    } else if str_eq(flag.as_str(), "-C") {
        register_completion(shell, ops.as_slice())
    } else if str_eq(flag.as_str(), "-r") {
        remove_completion(shell, ops.as_slice())
    } else {
        Outcome::Nothing
    }
}

proof fn lemma_flags_differ()
    ensures
        "-C"@ != "-p"@,
        "-r"@ != "-p"@,
        "-r"@ != "-C"@,
{
    reveal_strlit("-C");
    reveal_strlit("-p");
    reveal_strlit("-r");
    assert("-C"@[1] != "-p"@[1]);
    assert("-r"@[1] != "-p"@[1]);
    assert("-r"@[1] != "-C"@[1]);
}

/// `complete -C script command` registers `script` for `command`, replacing
/// what was registered for it and leaving every other command as it was.
pub proof fn register_then_lookup(
    table: Map<Seq<char>, Seq<char>>,
    script: Seq<char>,
    command: Seq<char>,
    r: Outcome,
    after: Map<Seq<char>, Seq<char>>,
)
    requires
        complete_effect(table, seq!["-C"@, script, command], r, after),
    ensures
        r is Nothing,
        after.contains_key(command),
        after[command] == script,
        forall|k: Seq<char>| k != command ==> (after.contains_key(k) == table.contains_key(k) && (
            table.contains_key(k) ==> after[k] == table[k])),
{
    lemma_flags_differ();
    let args = seq!["-C"@, script, command];
    assert(flag_of(args) == "-C"@);
    assert(operands_of(args) =~= seq![script, command]);
}

/// `complete -r command` forgets `command` and leaves every other command
/// as it was.
pub proof fn remove_then_lookup(
    table: Map<Seq<char>, Seq<char>>,
    command: Seq<char>,
    r: Outcome,
    after: Map<Seq<char>, Seq<char>>,
)
    requires
        complete_effect(table, seq!["-r"@, command], r, after),
    ensures
        r is Nothing,
        !after.contains_key(command),
        forall|k: Seq<char>| k != command ==> (after.contains_key(k) == table.contains_key(k) && (
            table.contains_key(k) ==> after[k] == table[k])),
{
    lemma_flags_differ();
    let args = seq!["-r"@, command];
    assert(flag_of(args) == "-r"@);
    assert(operands_of(args) =~= seq![command]);
}

/// After `complete -C script command`, `complete -p command` shows the
/// registration as a command that would make it again.
pub proof fn register_then_print(table: Map<Seq<char>, Seq<char>>, script: Seq<char>, command: Seq<char>)
    ensures
        print_text(table.insert(command, script), seq![command]) == "complete -C '"@ + script + "' "@
            + command,
{
}

} // verus!
