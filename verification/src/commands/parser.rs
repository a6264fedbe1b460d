//! Splitting a command line into words, and the redirection operators.
use vstd::prelude::*;
use vstd::string::StringSliceAdditionalSpecFns;
use vstd::utf8::encode_utf8;
use crate::text::{chars_of, is_ascii_space, is_ascii_space_byte, push_char};

verus! {

/// Where the word scanner stands inside the line.
#[derive(PartialEq, Eq, Structural, Clone, Copy)]
pub enum State {
    Default,
    InsideSingleQuote,
    InsideDoubleQuote,
    EscapedDefault,
    InsideDoubleQuoteBackslash,
}

pub const SINGLE_QUOTE: u8 = 0x27u8;

pub const DOUBLE_QUOTE: u8 = 0x22u8;

pub const BACKSLASH: u8 = 0x5Cu8;

/// The scanner's state, the finished words and the word being read.
pub type Scan = (State, Seq<Seq<char>>, Seq<char>);

/// The scanner's reaction to one byte. Each byte becomes the character with
/// the same number.
pub open spec fn step(st: Scan, b: u8) -> Scan {
    let (state, words, cur) = st;
    let c = b as char;
    match state {
        State::Default => {
            if b == SINGLE_QUOTE {
                (State::InsideSingleQuote, words, cur)
            } else if b == DOUBLE_QUOTE {
                (State::InsideDoubleQuote, words, cur)
            } else if is_ascii_space_byte(b) {
                (State::Default, if cur.len() > 0 { words.push(cur) } else { words }, Seq::empty())
            } else if b == BACKSLASH {
                (State::EscapedDefault, words, cur)
            } else {
                (State::Default, words, cur.push(c))
            }
        },
        State::InsideSingleQuote => {
            if b == SINGLE_QUOTE {
                (State::Default, words, cur)
            } else {
                (State::InsideSingleQuote, words, cur.push(c))
            }
        },
        State::InsideDoubleQuote => {
            if b == DOUBLE_QUOTE {
                (State::Default, words, cur)
            } else if b == BACKSLASH {
                (State::InsideDoubleQuoteBackslash, words, cur)
            } else {
                (State::InsideDoubleQuote, words, cur.push(c))
            }
        },
        State::EscapedDefault => (State::Default, words, cur.push(c)),
        State::InsideDoubleQuoteBackslash => {
            if b == DOUBLE_QUOTE || b == BACKSLASH {
                (State::InsideDoubleQuote, words, cur.push(c))
            } else {
                (State::InsideDoubleQuote, words, cur.push('\\').push(c))
            }
        },
    }
}

/// The scanner after reading all of `bytes`, starting in `Default` with no words.
pub open spec fn scan(bytes: Seq<u8>) -> Scan
    decreases bytes.len(),
{
    if bytes.len() == 0 {
        (State::Default, Seq::empty(), Seq::empty())
    } else {
        step(scan(bytes.drop_last()), bytes.last())
    }
}

/// The words of a line given as UTF-8 bytes: the finished words, then the
/// word still being read if it is not empty. Quotes and backslashes are
/// interpreted as in a POSIX shell, without expansions.
pub open spec fn split_words(bytes: Seq<u8>) -> Seq<Seq<char>> {
    let (_, words, cur) = scan(bytes);
    if cur.len() > 0 {
        words.push(cur)
    } else {
        words
    }
}

/// The words of the line whose characters are `line`, read from its UTF-8 bytes.
pub open spec fn words_of(line: Seq<char>) -> Seq<Seq<char>> {
    split_words(encode_utf8(line))
}

/// The character sequences of a list of strings.
pub open spec fn views(v: Seq<String>) -> Seq<Seq<char>> {
    v.map_values(|s: String| s@)
}

/// A command line split into its first word and the rest.
pub struct Input {
    command: String,
    args: Vec<String>,
}

impl View for Input {
    type V = (Seq<char>, Seq<Seq<char>>);

    closed spec fn view(&self) -> Self::V {
        (self.command@, views(self.args@))
    }
}

impl Input {
    /// The first word.
    pub fn command(&self) -> (r: &str)
        ensures
            r@ == self@.0,
    {
        self.command.as_str()
    }

    /// The words after the first.
    pub fn args(&self) -> (r: &Vec<String>)
        ensures
            views(r@) == self@.1,
    {
        &self.args
    }
}

/// Splits `input` into words. See `split_words`.
pub fn parse_words(input: &str) -> (r: Vec<String>)
    ensures
        views(r@) == words_of(input@),
{
    let bytes = input.as_bytes();
    let n = bytes.len();
    let mut result: Vec<String> = Vec::new();
    let mut current = String::new();
    let mut state = State::Default;
    let mut i: usize = 0;
    while i < n
        invariant
            n == bytes@.len(),
            bytes@ == input.spec_bytes(),
            i <= n,
            scan(bytes@.take(i as int)) == (state, views(result@), current@),
        decreases n - i,
    {
        let b = bytes[i];
        proof {
            assert(bytes@.take(i + 1).drop_last() =~= bytes@.take(i as int));
        }
        let ghost before = views(result@);
        match state {
            State::Default => {
                if b == SINGLE_QUOTE {
                    state = State::InsideSingleQuote;
                } else if b == DOUBLE_QUOTE {
                    state = State::InsideDoubleQuote;
                } else if is_ascii_space(b) {
                    if current.as_str().unicode_len() > 0 {
                        result.push(current);
                        assert(views(result@) =~= before.push(current@));
                    }
                    current = String::new();
                } else if b == BACKSLASH {
                    state = State::EscapedDefault;
                } else {
                    push_char(&mut current, b as char);
                }
            },
            State::InsideSingleQuote => {
                if b == SINGLE_QUOTE {
                    state = State::Default;
                } else {
                    push_char(&mut current, b as char);
                }
            },
            State::InsideDoubleQuote => {
                if b == DOUBLE_QUOTE {
                    state = State::Default;
                } else if b == BACKSLASH {
                    state = State::InsideDoubleQuoteBackslash;
                } else {
                    push_char(&mut current, b as char);
                }
            },
            State::EscapedDefault => {
                push_char(&mut current, b as char);
                state = State::Default;
            },
            State::InsideDoubleQuoteBackslash => {
                if b == DOUBLE_QUOTE || b == BACKSLASH {
                    push_char(&mut current, b as char);
                } else {
                    push_char(&mut current, '\\');
                    push_char(&mut current, b as char);
                }
                state = State::InsideDoubleQuote;
            },
        }
        i = i + 1;
    }
    assert(bytes@.take(n as int) =~= bytes@);
    if current.as_str().unicode_len() > 0 {
        let ghost before = views(result@);
        result.push(current);
        assert(views(result@) =~= before.push(current@));
    }
    result
}

/// Splits `input` into its first word and the remaining words.
/// The line must hold at least one word.
pub fn parse(input: &str) -> (r: Input)
    requires
        words_of(input@).len() > 0,
    ensures
        r@.0 == words_of(input@)[0],
        r@.1 == words_of(input@).skip(1),
{
    let mut words = parse_words(input);
    let ghost all = views(words@);
    let command = words.remove(0);
    assert(views(words@) =~= all.skip(1));
    Input { command, args: words }
}

/// Every word of a line holds at least one character: quotes that enclose
/// nothing and runs of whitespace produce no empty word.
pub proof fn words_are_never_empty(bytes: Seq<u8>)
    ensures
        forall|k: int| 0 <= k < split_words(bytes).len() ==> #[trigger] split_words(bytes)[k].len() > 0,
{
    lemma_scan_words_nonempty(bytes);
}

proof fn lemma_scan_words_nonempty(bytes: Seq<u8>)
    ensures
        forall|k: int| 0 <= k < scan(bytes).1.len() ==> #[trigger] scan(bytes).1[k].len() > 0,
    decreases bytes.len(),
{
    if bytes.len() > 0 {
        let prev = scan(bytes.drop_last());
        lemma_scan_words_nonempty(bytes.drop_last());
        let next = step(prev, bytes.last());
        assert(scan(bytes) == next);
        assert(next.1 == prev.1 || (prev.2.len() > 0 && next.1 == prev.1.push(prev.2)));
        assert forall|k: int| 0 <= k < next.1.len() implies #[trigger] next.1[k].len() > 0 by {
            if k < prev.1.len() {
                assert(next.1[k] == prev.1[k]);
            }
        }
    }
}

/// The stream that a redirection sends to a file.
#[derive(PartialEq, Eq, Structural, Clone, Copy, Debug)]
pub enum Out {
    StdOut,
    StdErr,
}

/// A redirection of one output stream.
#[derive(Debug)]
pub enum Redirect {
    /// Send `out` to the file `file`, appending to it or replacing it.
    File { out: Out, file: String, append: bool },
}

/// A redirection as plain values: the stream, the file name, whether to append.
pub type RedirectSpec = (Out, Seq<char>, bool);

/// The plain value of a redirection.
pub open spec fn redirect_view(r: Redirect) -> RedirectSpec {
    match r {
        Redirect::File { out, file, append } => (out, file@, append),
    }
}

/// The plain values of a list of redirections.
pub open spec fn redirect_views(v: Seq<Redirect>) -> Seq<RedirectSpec> {
    v.map_values(|r: Redirect| redirect_view(r))
}

/// The redirection operator that the word `w` is, if any: `>` and `1>`
/// replace the standard output's file, `>>` and `1>>` append to it, `2>` and
/// `2>>` do the same for the standard error.
pub open spec fn redirect_op(w: Seq<char>) -> Option<(Out, bool)> {
    if w == seq!['>'] || w == seq!['1', '>'] {
        Some((Out::StdOut, false))
    } else if w == seq!['>', '>'] || w == seq!['1', '>', '>'] {
        Some((Out::StdOut, true))
    } else if w == seq!['2', '>'] {
        Some((Out::StdErr, false))
    } else if w == seq!['2', '>', '>'] {
        Some((Out::StdErr, true))
    } else {
        None
    }
}

/// Separates the redirections from the other words, left to right: an
/// operator followed by a word is a redirection to the file that the word
/// names; every other word is kept, in order. An operator that is the last
/// word has no file and is kept as a word.
pub open spec fn extract(ws: Seq<Seq<char>>) -> (Seq<Seq<char>>, Seq<RedirectSpec>)
    decreases ws.len(),
{
    if ws.len() == 0 {
        (Seq::empty(), Seq::empty())
    } else if ws.len() >= 2 && redirect_op(ws[0]) is Some {
        let rest = extract(ws.skip(2));
        let (out, append) = redirect_op(ws[0]).unwrap();
        (rest.0, seq![(out, ws[1], append)] + rest.1)
    } else {
        let rest = extract(ws.skip(1));
        (seq![ws[0]] + rest.0, rest.1)
    }
}

/// The redirection operator that `w` is, if any.
pub fn redirect_op_of(w: &String) -> (r: Option<(Out, bool)>)
    ensures
        r == redirect_op(w@),
{
    let c = chars_of(w.as_str());
    let n = c.len();
    if n == 1 && c[0] == '>' {
        assert(c@ =~= seq!['>']);
        Some((Out::StdOut, false))
    } else if n == 2 && c[0] == '1' && c[1] == '>' {
        assert(c@ =~= seq!['1', '>']);
        Some((Out::StdOut, false))
    } else if n == 2 && c[0] == '>' && c[1] == '>' {
        assert(c@ =~= seq!['>', '>']);
        Some((Out::StdOut, true))
    } else if n == 3 && c[0] == '1' && c[1] == '>' && c[2] == '>' {
        assert(c@ =~= seq!['1', '>', '>']);
        Some((Out::StdOut, true))
    } else if n == 2 && c[0] == '2' && c[1] == '>' {
        assert(c@ =~= seq!['2', '>']);
        Some((Out::StdErr, false))
    } else if n == 3 && c[0] == '2' && c[1] == '>' && c[2] == '>' {
        assert(c@ =~= seq!['2', '>', '>']);
        Some((Out::StdErr, true))
    } else {
        assert(c@ != seq!['>']);
        assert(c@ != seq!['1', '>']);
        assert(c@ != seq!['>', '>']);
        assert(c@ != seq!['1', '>', '>']);
        assert(c@ != seq!['2', '>']);
        assert(c@ != seq!['2', '>', '>']);
        None
    }
}

/// Separates the redirections in `words` from the other words. See `extract`.
pub fn extract_redirects(words: &Vec<String>) -> (r: (Vec<String>, Vec<Redirect>))
    ensures
        (views(r.0@), redirect_views(r.1@)) == extract(views(words@)),
{
    let ghost ws = views(words@);
    let n = words.len();
    let mut kept: Vec<String> = Vec::new();
    let mut reds: Vec<Redirect> = Vec::new();
    let mut i: usize = 0;
    assert(ws.skip(0) =~= ws);
    while i < n
        invariant
            n == words@.len(),
            ws == views(words@),
            i <= n,
            views(kept@) + extract(ws.skip(i as int)).0 == extract(ws).0,
            redirect_views(reds@) + extract(ws.skip(i as int)).1 == extract(ws).1,
        decreases n - i,
    {
        let ghost rest = ws.skip(i as int);
        let ghost k0 = views(kept@);
        let ghost r0 = redirect_views(reds@);
        let op = redirect_op_of(&words[i]);
        assert(rest[0] == words@[i as int]@);
        if i + 1 < n && op.is_some() {
            let (out, append) = op.unwrap();
            let file = words[i + 1].clone();
            assert(rest[1] == words@[i + 1]@);
            assert(rest.skip(2) =~= ws.skip(i + 2));
            reds.push(Redirect::File { out, file, append });
            assert(redirect_views(reds@) =~= r0.push((out, ws[i + 1], append)));
            assert(r0.push((out, ws[i + 1], append)) + extract(ws.skip(i + 2)).1 =~= r0 + (seq![
                (out, ws[i + 1], append),
            ] + extract(ws.skip(i + 2)).1));
            i = i + 2;
        } else {
            let w = words[i].clone();
            assert(rest.skip(1) =~= ws.skip(i + 1));
            kept.push(w);
            assert(views(kept@) =~= k0.push(ws[i as int]));
            assert(k0.push(ws[i as int]) + extract(ws.skip(i + 1)).0 =~= k0 + (seq![ws[i as int]]
                + extract(ws.skip(i + 1)).0));
            i = i + 1;
        }
    }
    assert(extract(ws.skip(n as int)) == (Seq::<Seq<char>>::empty(), Seq::<RedirectSpec>::empty()));
    assert(views(kept@) + Seq::<Seq<char>>::empty() =~= views(kept@));
    assert(redirect_views(reds@) + Seq::<RedirectSpec>::empty() =~= redirect_views(reds@));
    (kept, reds)
}

/// The characters that the bytes `t` stand for, one per byte.
pub open spec fn bytes_as_chars(t: Seq<u8>) -> Seq<char> {
    t.map_values(|b: u8| b as char)
}

/// Text between single quotes is taken literally: a line that is a
/// non-empty text without single quote, in single quotes, is one word, that
/// text, whatever spaces, double quotes or backslashes it holds.
pub proof fn single_quoted_text_is_one_word(t: Seq<u8>)
    requires
        t.len() > 0,
        forall|i: int| 0 <= i < t.len() ==> #[trigger] t[i] != SINGLE_QUOTE,
    ensures
        split_words(seq![SINGLE_QUOTE] + t + seq![SINGLE_QUOTE]) == seq![bytes_as_chars(t)],
{
    lemma_inside_single_quotes(t, t.len() as int);
    let line = seq![SINGLE_QUOTE] + t + seq![SINGLE_QUOTE];
    assert(line.drop_last() =~= seq![SINGLE_QUOTE] + t.take(t.len() as int));
    assert(t.take(t.len() as int) =~= t);
    assert(bytes_as_chars(t).len() > 0);
}

proof fn lemma_inside_single_quotes(t: Seq<u8>, i: int)
    requires
        0 <= i <= t.len(),
        forall|k: int| 0 <= k < t.len() ==> #[trigger] t[k] != SINGLE_QUOTE,
    ensures
        scan(seq![SINGLE_QUOTE] + t.take(i)) == (State::InsideSingleQuote, Seq::<Seq<char>>::empty(), bytes_as_chars(t.take(i))),
    decreases i,
{
    let line = seq![SINGLE_QUOTE] + t.take(i);
    if i == 0 {
        assert(line =~= seq![SINGLE_QUOTE]);
        assert(line.drop_last() =~= Seq::<u8>::empty());
        assert(scan(line.drop_last()) == (State::Default, Seq::<Seq<char>>::empty(), Seq::<char>::empty()));
        assert(scan(line) == step(scan(line.drop_last()), line.last()));
        assert(bytes_as_chars(t.take(0)) =~= Seq::<char>::empty());
    } else {
        lemma_inside_single_quotes(t, i - 1);
        assert(line.drop_last() =~= seq![SINGLE_QUOTE] + t.take(i - 1));
        assert(line.last() == t[i - 1]);
        assert(t[i - 1] != SINGLE_QUOTE);
        assert(scan(line) == step(scan(line.drop_last()), line.last()));
        assert(bytes_as_chars(t.take(i)) =~= bytes_as_chars(t.take(i - 1)).push(t[i - 1] as char));
    }
}

/// Text without double quote or backslash, read inside double quotes,
/// is appended to the current word as it stands.
proof fn lemma_inside_double_quotes(p: Seq<u8>, t: Seq<u8>, i: int, ws: Seq<Seq<char>>, cur: Seq<char>)
    requires
        0 <= i <= t.len(),
        scan(p) == (State::InsideDoubleQuote, ws, cur),
        forall|k: int| 0 <= k < t.len() ==> #[trigger] t[k] != DOUBLE_QUOTE && t[k] != BACKSLASH,
    ensures
        scan(p + t.take(i)) == (State::InsideDoubleQuote, ws, cur + bytes_as_chars(t.take(i))),
    decreases i,
{
    let line = p + t.take(i);
    if i == 0 {
        assert(line =~= p);
        assert(cur + bytes_as_chars(t.take(0)) =~= cur);
    } else {
        lemma_inside_double_quotes(p, t, i - 1, ws, cur);
        assert(line.drop_last() =~= p + t.take(i - 1));
        assert(line.last() == t[i - 1]);
        assert(t[i - 1] != DOUBLE_QUOTE && t[i - 1] != BACKSLASH);
        assert(scan(line) == step(scan(line.drop_last()), line.last()));
        assert(cur + bytes_as_chars(t.take(i)) =~= (cur + bytes_as_chars(t.take(i - 1))).push(
            t[i - 1] as char,
        ));
    }
}

proof fn lemma_open_double_quote()
    ensures
        scan(seq![DOUBLE_QUOTE]) == (State::InsideDoubleQuote, Seq::<Seq<char>>::empty(), Seq::<char>::empty()),
{
    let line = seq![DOUBLE_QUOTE];
    assert(line.drop_last() =~= Seq::<u8>::empty());
    assert(scan(line) == step(scan(line.drop_last()), line.last()));
}

/// Text between double quotes is taken literally when it holds no double
/// quote or backslash: a line that is such a non-empty text in double quotes
/// is one word, that text, whatever spaces or single quotes it holds.
pub proof fn double_quoted_text_is_one_word(t: Seq<u8>)
    requires
        t.len() > 0,
        forall|i: int| 0 <= i < t.len() ==> #[trigger] t[i] != DOUBLE_QUOTE && t[i] != BACKSLASH,
    ensures
        split_words(seq![DOUBLE_QUOTE] + t + seq![DOUBLE_QUOTE]) == seq![bytes_as_chars(t)],
{
    lemma_open_double_quote();
    lemma_inside_double_quotes(seq![DOUBLE_QUOTE], t, t.len() as int, Seq::empty(), Seq::empty());
    let line = seq![DOUBLE_QUOTE] + t + seq![DOUBLE_QUOTE];
    assert(t.take(t.len() as int) =~= t);
    assert(line.drop_last() =~= seq![DOUBLE_QUOTE] + t.take(t.len() as int));
    assert(Seq::<char>::empty() + bytes_as_chars(t) =~= bytes_as_chars(t));
    assert(scan(line) == step(scan(line.drop_last()), line.last()));
    assert(bytes_as_chars(t).len() > 0);
}

/// A backslash inside double quotes escapes a double quote or a backslash,
/// which then stands alone; before any other byte it is kept along with
/// that byte. So the line made of a double quote, the text `t`, a
/// backslash, the byte `e`, the text `u` and a double quote (`t` and `u`
/// without double quotes or backslashes) is the one word `t`, then `e`
/// alone or a backslash and `e`, then `u`.
pub proof fn backslash_in_double_quotes(t: Seq<u8>, e: u8, u: Seq<u8>)
    requires
        forall|i: int| 0 <= i < t.len() ==> #[trigger] t[i] != DOUBLE_QUOTE && t[i] != BACKSLASH,
        forall|i: int| 0 <= i < u.len() ==> #[trigger] u[i] != DOUBLE_QUOTE && u[i] != BACKSLASH,
    ensures
        split_words(seq![DOUBLE_QUOTE] + t + seq![BACKSLASH, e] + u + seq![DOUBLE_QUOTE]) == seq![
            bytes_as_chars(t) + (if e == DOUBLE_QUOTE || e == BACKSLASH {
                seq![e as char]
            } else {
                seq!['\\', e as char]
            }) + bytes_as_chars(u),
        ],
{
    let mid = if e == DOUBLE_QUOTE || e == BACKSLASH {
        seq![e as char]
    } else {
        seq!['\\', e as char]
    };
    lemma_open_double_quote();
    let p0 = seq![DOUBLE_QUOTE];
    lemma_inside_double_quotes(p0, t, t.len() as int, Seq::empty(), Seq::empty());
    assert(t.take(t.len() as int) =~= t);
    let p1 = p0 + t;
    let ct = Seq::<char>::empty() + bytes_as_chars(t);
    assert(ct =~= bytes_as_chars(t));
    let p2 = p1.push(BACKSLASH);
    assert(p2.drop_last() =~= p1);
    assert(scan(p2) == step(scan(p1), BACKSLASH));
    assert(scan(p2) == (State::InsideDoubleQuoteBackslash, Seq::<Seq<char>>::empty(), bytes_as_chars(t)));
    let p3 = p2.push(e);
    assert(p3.drop_last() =~= p2);
    assert(scan(p3) == step(scan(p2), e));
    let c3 = bytes_as_chars(t) + mid;
    assert(scan(p3) == (State::InsideDoubleQuote, Seq::<Seq<char>>::empty(), c3)) by {
        if e == DOUBLE_QUOTE || e == BACKSLASH {
            assert(bytes_as_chars(t).push(e as char) =~= c3);
        } else {
            assert(bytes_as_chars(t).push('\\').push(e as char) =~= c3);
        }
    }
    lemma_inside_double_quotes(p3, u, u.len() as int, Seq::empty(), c3);
    assert(u.take(u.len() as int) =~= u);
    let line = seq![DOUBLE_QUOTE] + t + seq![BACKSLASH, e] + u + seq![DOUBLE_QUOTE];
    assert(line.drop_last() =~= p3 + u.take(u.len() as int));
    assert(scan(line) == step(scan(line.drop_last()), line.last()));
    assert(c3.len() > 0);
}

/// No word is lost to the redirections: each redirection takes two words,
/// every other word is kept.
pub proof fn extract_accounts_for_every_word(ws: Seq<Seq<char>>)
    ensures
        extract(ws).0.len() + 2 * extract(ws).1.len() == ws.len(),
    decreases ws.len(),
{
    if ws.len() >= 2 && redirect_op(ws[0]) is Some {
        extract_accounts_for_every_word(ws.skip(2));
    } else if ws.len() > 0 {
        extract_accounts_for_every_word(ws.skip(1));
    }
}

/// ASCII whitespace as `char::is_ascii_whitespace` defines it: space, tab,
/// line feed, form feed and carriage return.
pub open spec fn is_ascii_space_char(c: char) -> bool {
    c == ' ' || c == '\t' || c == '\n' || c == '\x0C' || c == '\r'
}

/// The runs of non-whitespace characters of `s` read so far, and the run
/// being read.
pub open spec fn fields_scan(s: Seq<char>) -> (Seq<Seq<char>>, Seq<char>)
    decreases s.len(),
{
    if s.len() == 0 {
        (Seq::empty(), Seq::empty())
    } else {
        let (done, cur) = fields_scan(s.drop_last());
        if is_ascii_space_char(s.last()) {
            (if cur.len() > 0 { done.push(cur) } else { done }, Seq::empty())
        } else {
            (done, cur.push(s.last()))
        }
    }
}

/// `s` split at ASCII whitespace with the empty pieces dropped
/// (`str::split_ascii_whitespace`).
pub open spec fn ascii_fields(s: Seq<char>) -> Seq<Seq<char>> {
    let (done, cur) = fields_scan(s);
    if cur.len() > 0 {
        done.push(cur)
    } else {
        done
    }
}

/// A character that a line of plain ASCII text may hold: ASCII, and no
/// quote or backslash.
pub open spec fn is_unquoted_ascii(c: char) -> bool {
    (c as u32) < 0x80 && c != '\'' && c != '"' && c != '\\'
}

proof fn lemma_scan_unquoted(s: Seq<char>, i: int)
    requires
        0 <= i <= s.len(),
        forall|k: int| 0 <= k < s.len() ==> is_unquoted_ascii(#[trigger] s[k]),
    ensures
        scan(s.map_values(|c: char| (c as u32) as u8).take(i)) == (
            State::Default,
            fields_scan(s.take(i)).0,
            fields_scan(s.take(i)).1,
        ),
    decreases i,
{
    let bytes = s.map_values(|c: char| (c as u32) as u8);
    if i == 0 {
        assert(bytes.take(0) =~= Seq::<u8>::empty());
        assert(s.take(0) =~= Seq::<char>::empty());
    } else {
        lemma_scan_unquoted(s, i - 1);
        assert(bytes.take(i).drop_last() =~= bytes.take(i - 1));
        assert(s.take(i).drop_last() =~= s.take(i - 1));
        let c = s[i - 1];
        assert(is_unquoted_ascii(c));
        assert(s.take(i).last() == c);
        let b = (c as u32) as u8;
        assert(bytes.take(i).last() == b);
        vstd::utf8::char_u32_cast(c, c as u32);
        assert((b as char) == c);
        assert(is_ascii_space_byte(b) == is_ascii_space_char(c));
        assert(b != SINGLE_QUOTE && b != DOUBLE_QUOTE && b != BACKSLASH);
    }
}

/// A line of ASCII text without quotes or backslashes splits into words
/// exactly at its ASCII whitespace, as `str::split_ascii_whitespace` splits
/// it; so the command of `parse` is the first such piece and its arguments
/// are the others.
pub proof fn unquoted_ascii_splits_at_whitespace(line: Seq<char>)
    requires
        forall|k: int| 0 <= k < line.len() ==> is_unquoted_ascii(#[trigger] line[k]),
    ensures
        words_of(line) == ascii_fields(line),
{
    assert forall|k: int| 0 <= k < line.len() implies (#[trigger] line[k] as u32) < 0x80 by {
        assert(is_unquoted_ascii(line[k]));
    }
    crate::text::lemma_encode_ascii(line);
    lemma_scan_unquoted(line, line.len() as int);
    let bytes = line.map_values(|c: char| (c as u32) as u8);
    assert(bytes.take(line.len() as int) =~= bytes);
    assert(line.take(line.len() as int) =~= line);
}

} // verus!
