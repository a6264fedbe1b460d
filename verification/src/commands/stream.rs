//! Where the output of a statement goes: the files of its redirections and
//! the terminal.
use vstd::prelude::*;
use crate::commands::outcome::Outcome;
use crate::commands::parser::{redirect_views, Out, Redirect, RedirectSpec};
use crate::text::push_char;

verus! {

/// One file to open (creating it, and appending to it or replacing its
/// contents) and the text to write to it, possibly none.
pub struct FileWrite {
    pub file: String,
    pub append: bool,
    pub text: String,
}

/// Everything that showing an outcome does, in order: leave with `exit`
/// if it is set; otherwise carry out `writes`, then write `to_stdout` to
/// the standard output and `to_stderr` to the standard error.
pub struct OutputPlan {
    pub exit: Option<i32>,
    pub writes: Vec<FileWrite>,
    pub to_stdout: String,
    pub to_stderr: String,
}

/// What a file receives for the text `t`: nothing for no text, otherwise
/// the text and a line feed.
pub open spec fn file_text(t: Seq<char>) -> Seq<char> {
    if t.len() == 0 {
        t
    } else {
        t.push('\n')
    }
}

/// `s` with every line feed preceded by a carriage return.
pub open spec fn crlf(s: Seq<char>) -> Seq<char>
    decreases s.len(),
{
    if s.len() == 0 {
        s
    } else if s.last() == '\n' {
        crlf(s.drop_last()) + seq!['\r', '\n']
    } else {
        crlf(s.drop_last()).push(s.last())
    }
}

/// `s` with the carriage return before each line feed taken out: each
/// `\r\n` becomes `\n`, every other character stays.
pub open spec fn drop_cr_before_lf(s: Seq<char>) -> Seq<char>
    decreases s.len(),
{
    if s.len() >= 2 && s.last() == '\n' && s[s.len() - 2] == '\r' {
        drop_cr_before_lf(s.take(s.len() - 2)).push('\n')
    } else if s.len() > 0 {
        drop_cr_before_lf(s.drop_last()).push(s.last())
    } else {
        s
    }
}

/// Raw-mode line breaks: in `crlf(t)` every line feed follows a carriage
/// return, the line feeds are those of `t`, one each, and taking out the
/// carriage return before each line feed gives back `t`.
pub proof fn crlf_breaks_every_line(t: Seq<char>)
    ensures
        forall|i: int| 0 <= i < crlf(t).len() && #[trigger] crlf(t)[i] == '\n' ==> i > 0 && crlf(t)[i - 1] == '\r',
        drop_cr_before_lf(crlf(t)) == t,
    decreases t.len(),
{
    if t.len() > 0 {
        let init = t.drop_last();
        crlf_breaks_every_line(init);
        let c = crlf(init);
        if t.last() == '\n' {
            let r = c + seq!['\r', '\n'];
            assert(crlf(t) == r);
            assert(r.take(r.len() - 2) =~= c);
            assert(init.push('\n') =~= t);
            assert forall|i: int| 0 <= i < r.len() && #[trigger] r[i] == '\n' implies i > 0 && r[i - 1] == '\r' by {
                if i < c.len() {
                    assert(r[i] == c[i]);
                    assert(r[i - 1] == c[i - 1]);
                }
            }
        } else {
            let r = c.push(t.last());
            assert(crlf(t) == r);
            assert(r.drop_last() =~= c);
            assert(init.push(t.last()) =~= t);
            assert forall|i: int| 0 <= i < r.len() && #[trigger] r[i] == '\n' implies i > 0 && r[i - 1] == '\r' by {
                if i < c.len() {
                    assert(r[i] == c[i]);
                    assert(r[i - 1] == c[i - 1]);
                }
            }
        }
    }
}

/// What the terminal receives for the text `t`: nothing for no text;
/// otherwise, in raw mode, the text with `\r\n` line breaks and a final
/// `\r\n`, and outside raw mode the text and a line feed.
pub open spec fn terminal_text(t: Seq<char>, interactive: bool) -> Seq<char> {
    if t.len() == 0 {
        t
    } else if interactive {
        crlf(t) + seq!['\r', '\n']
    } else {
        t.push('\n')
    }
}

/// Some redirection before the `i`-th one sends the same stream.
pub open spec fn stream_taken_before(rs: Seq<RedirectSpec>, i: int) -> bool {
    exists|j: int| 0 <= j < i && #[trigger] rs[j].0 == rs[i].0
}

/// Some redirection sends the stream `o`.
pub open spec fn stream_redirected(rs: Seq<RedirectSpec>, o: Out) -> bool {
    exists|j: int| 0 <= j < rs.len() && #[trigger] rs[j].0 == o
}

/// The plan for showing the outcome with the text `out` and `err` under
/// the redirections `rs`: each redirection, in order, writes the whole
/// stream that it sends to its file, unless an earlier one took that stream,
/// in which case it writes nothing; a stream that no redirection sends goes
/// to the terminal.
pub open spec fn plan_spec(out: Seq<char>, err: Seq<char>, rs: Seq<RedirectSpec>, interactive: bool, p: OutputPlan) -> bool {
    &&& p.exit is None
    &&& p.writes@.len() == rs.len()
    &&& forall|i: int| 0 <= i < rs.len() ==> {
        let w = #[trigger] p.writes@[i];
        let stream = if rs[i].0 == Out::StdOut { out } else { err };
        &&& w.file@ == rs[i].1
        &&& w.append == rs[i].2
        &&& w.text@ == (if stream_taken_before(rs, i) { Seq::empty() } else { file_text(stream) })
    }
    &&& p.to_stdout@ == (if stream_redirected(rs, Out::StdOut) { Seq::empty() } else { terminal_text(out, interactive) })
    &&& p.to_stderr@ == (if stream_redirected(rs, Out::StdErr) { Seq::empty() } else { terminal_text(err, interactive) })
}

fn file_text_of(t: &String) -> (r: String)
    ensures
        r@ == file_text(t@),
{
    let mut r = t.clone();
    if t.as_str().unicode_len() > 0 {
        push_char(&mut r, '\n');
    }
    r
}

fn terminal_text_of(t: &String, interactive: bool) -> (r: String)
    ensures
        r@ == terminal_text(t@, interactive),
{
    let v = crate::text::chars_of(t.as_str());
    if v.len() == 0 {
        return String::new();
    }
    let mut r = String::new();
    if interactive {
        let mut i: usize = 0;
        while i < v.len()
            invariant
                i <= v@.len(),
                r@ == crlf(v@.take(i as int)),
            decreases v@.len() - i,
        {
            assert(v@.take(i + 1).drop_last() =~= v@.take(i as int));
            if v[i] == '\n' {
                push_char(&mut r, '\r');
                push_char(&mut r, '\n');
                assert(r@ =~= crlf(v@.take(i as int)) + seq!['\r', '\n']);
            } else {
                push_char(&mut r, v[i]);
            }
            i = i + 1;
        }
        assert(v@.take(v@.len() as int) =~= v@);
        push_char(&mut r, '\r');
        push_char(&mut r, '\n');
        assert(r@ =~= crlf(t@) + seq!['\r', '\n']);
    } else {
        r = t.clone();
        push_char(&mut r, '\n');
    }
    r
}

/// How to show `outcome` under the redirections `redirects`: a `Quit`
/// leaves with its code; otherwise see `plan_spec`, with no text for an
/// outcome that reports nothing.
pub fn plan_output(outcome: Outcome, redirects: &[Redirect], interactive: bool) -> (r: OutputPlan)
    ensures
        match outcome {
            Outcome::Quit(code) => r.exit == Some(code) && r.writes@.len() == 0 && r.to_stdout@.len() == 0
                && r.to_stderr@.len() == 0,
            Outcome::Output { stdout, stderr } => plan_spec(stdout@, stderr@, redirect_views(redirects@), interactive, r),
            Outcome::Nothing => plan_spec(Seq::empty(), Seq::empty(), redirect_views(redirects@), interactive, r),
        },
{
    let (out, err) = match outcome {
        Outcome::Quit(code) => {
            return OutputPlan { exit: Some(code), writes: Vec::new(), to_stdout: String::new(), to_stderr: String::new() };
        },
        Outcome::Output { stdout, stderr } => (stdout, stderr),
        Outcome::Nothing => (String::new(), String::new()),
    };
    let ghost rs = redirect_views(redirects@);
    let mut out_taken = false;
    let mut err_taken = false;
    let mut writes: Vec<FileWrite> = Vec::new();
    let mut i: usize = 0;
    while i < redirects.len()
        invariant
            i <= redirects@.len(),
            rs == redirect_views(redirects@),
            writes@.len() == i,
            out_taken == stream_redirected(rs.take(i as int), Out::StdOut),
            err_taken == stream_redirected(rs.take(i as int), Out::StdErr),
            forall|k: int| 0 <= k < i ==> {
                let w = #[trigger] writes@[k];
                let stream = if rs[k].0 == Out::StdOut { out@ } else { err@ };
                &&& w.file@ == rs[k].1
                &&& w.append == rs[k].2
                &&& w.text@ == (if stream_taken_before(rs, k) { Seq::empty() } else { file_text(stream) })
            },
        decreases redirects@.len() - i,
    {
        let ghost before = writes@;
        match &redirects[i] {
            Redirect::File { out: o, file, append } => {
                let taken = match o {
                    Out::StdOut => out_taken,
                    Out::StdErr => err_taken,
                };
                proof {
                    assert(rs[i as int] == (*o, file@, *append));
                    if taken {
                        let j = choose|j: int| 0 <= j < rs.take(i as int).len() && #[trigger] rs.take(i as int)[j].0 == *o;
                        assert(rs[j].0 == rs[i as int].0);
                        assert(stream_taken_before(rs, i as int));
                    } else {
                        assert forall|j: int| 0 <= j < i implies #[trigger] rs[j].0 != rs[i as int].0 by {
                            assert(rs.take(i as int)[j] == rs[j]);
                        }
                    }
                }
                let text = if taken {
                    String::new()
                } else {
                    match o {
                        Out::StdOut => file_text_of(&out),
                        Out::StdErr => file_text_of(&err),
                    }
                };
                writes.push(FileWrite { file: file.clone(), append: *append, text });
                match o {
                    Out::StdOut => {
                        out_taken = true;
                    },
                    Out::StdErr => {
                        err_taken = true;
                    },
                }
                proof {
                    let t1 = rs.take(i + 1);
                    assert(t1[i as int] == rs[i as int]);
                    assert forall|o2: Out| stream_redirected(t1, o2) == (stream_redirected(rs.take(i as int), o2) || rs[i as int].0 == o2) by {
                        if stream_redirected(rs.take(i as int), o2) {
                            let j = choose|j: int| 0 <= j < rs.take(i as int).len() && #[trigger] rs.take(i as int)[j].0 == o2;
                            assert(t1[j] == rs.take(i as int)[j]);
                        }
                        if stream_redirected(t1, o2) && !(rs[i as int].0 == o2) {
                            let j = choose|j: int| 0 <= j < t1.len() && #[trigger] t1[j].0 == o2;
                            assert(rs.take(i as int)[j] == t1[j]);
                        }
                    }
                    assert forall|k: int| 0 <= k < i + 1 implies {
                        let w = #[trigger] writes@[k];
                        let stream = if rs[k].0 == Out::StdOut { out@ } else { err@ };
                        &&& w.file@ == rs[k].1
                        &&& w.append == rs[k].2
                        &&& w.text@ == (if stream_taken_before(rs, k) { Seq::empty() } else { file_text(stream) })
                    } by {
                        if k < i {
                            assert(writes@[k] == before[k]);
                        }
                    }
                }
            },
        }
        i = i + 1;
    }
    assert(rs.take(redirects@.len() as int) =~= rs);
    let to_stdout = if out_taken {
        String::new()
    } else {
        terminal_text_of(&out, interactive)
    };
    let to_stderr = if err_taken {
        String::new()
    } else {
        terminal_text_of(&err, interactive)
    };
    OutputPlan { exit: None, writes, to_stdout, to_stderr }
}

} // verus!
