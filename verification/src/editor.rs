//! The line editor's state machine: how each key changes the line and what
//! is echoed to the terminal. Reading keys and writing the echo is the
//! caller's part.
use vstd::prelude::*;
use crate::commands::parser::views;
use crate::completion::{complete, complete_spec, context_defined, CompletionAction, CompletionStep};
use crate::shell::Shell;
use crate::text::{
    byte_len, byte_len_of, chars_of, ends_with_char, find_cut, join_strings, join_words,
    lemma_byte_len_at_least_len, push_char, string_of_range,
};

verus! {

/// What a second Tab in a row does.
pub enum TabState {
    /// Nothing is held.
    Idle,
    /// The last Tab found several candidates; the next one lists them.
    Ambiguous(Vec<String>),
}

/// Where the editing of a line stands after a key.
pub enum EditResult {
    StillEditing,
    /// Enter: the line is done.
    Submitted(String),
    /// Ctrl-C or Ctrl-D.
    Cancelled,
}

/// A key as the editor sees it.
#[derive(PartialEq, Eq, Structural, Clone, Copy, Debug)]
pub enum EditKey {
    Char(char),
    Backspace,
    Ctrl(char),
    /// Any other key; it is ignored.
    Other,
}

/// What the caller does after a key.
pub enum Feed {
    /// Write `output` to the terminal and flush it; `result` says how the line stands.
    Done { result: EditResult, output: String },
    /// Tab: carry out the completion `step`, then hand the action to `finish_tab`.
    Complete(CompletionStep),
}

/// The escape sequence that clears the terminal line from the cursor on.
pub open spec fn clear_line_code() -> Seq<char> {
    seq!['\x1b', '[', 'K']
}

/// Calls `termion::clear::UntilNewline` through its `Display`, which writes
/// the control sequence introducer `ESC [` followed by `K`.
#[verifier::external_body]
fn clear_until_newline() -> (r: String)
    ensures
        r@ == clear_line_code(),
{
    format!("{}", termion::clear::UntilNewline)
}

/// The prompt with the line: back to the start of the terminal line, `$ `,
/// the line, then the rest of the terminal line cleared.
pub open spec fn render_spec(line: Seq<char>) -> Seq<char> {
    seq!['\r', '$', ' '] + line + clear_line_code()
}

/// The end of a line: `\r\n` on a terminal in raw mode, `\n` otherwise.
pub open spec fn newline_spec(interactive: bool) -> Seq<char> {
    if interactive {
        seq!['\r', '\n']
    } else {
        seq!['\n']
    }
}

/// The characters of the line that take `start` bytes, where `start` falls
/// between two characters; the whole line where `start` is past its end.
pub open spec fn can_cut(line: Seq<char>, start: nat) -> bool {
    start >= byte_len(line) || exists|k: int| 0 <= k <= line.len() && #[trigger] byte_len(line.take(k)) == start
}

/// The line cut after `start` bytes (`String::truncate`).
pub open spec fn cut(line: Seq<char>, start: nat) -> Seq<char> {
    if start >= byte_len(line) {
        line
    } else {
        line.take(choose|k: int| 0 <= k <= line.len() && #[trigger] byte_len(line.take(k)) == start)
    }
}

/// The line after the completion action `a`.
pub open spec fn applied_line(line: Seq<char>, a: CompletionAction) -> Seq<char> {
    match a {
        CompletionAction::Replace { start, text, space } => {
            let t = cut(line, start as nat) + text@;
            if space && !(text@.len() > 0 && text@.last() == '/') {
                t.push(' ')
            } else {
                t
            }
        },
        _ => line,
    }
}

/// Edits one line at the prompt.
pub struct LineEditor<'a> {
    line: String,
    cursor: usize,
    tab: TabState,
    shell: &'a Shell,
    interactive: bool,
}

impl<'a> LineEditor<'a> {
    #[verifier::type_invariant]
    closed spec fn inv(self) -> bool {
        self.line@.len() <= self.cursor
    }

    /// The line so far.
    pub closed spec fn text(self) -> Seq<char> {
        self.line@
    }

    /// The cursor count: one per character typed, or the length in bytes
    /// of the line after a completion.
    pub closed spec fn cursor_at(self) -> usize {
        self.cursor
    }

    /// The candidates that the next Tab lists, if any.
    pub closed spec fn held(self) -> Option<Seq<Seq<char>>> {
        match self.tab {
            TabState::Idle => None,
            TabState::Ambiguous(list) => Some(views(list@)),
        }
    }

    /// The shell whose completion scripts the editor uses.
    pub closed spec fn shell_of(self) -> Shell {
        *self.shell
    }

    /// Whether the terminal is interactive (in raw mode).
    pub closed spec fn is_interactive(self) -> bool {
        self.interactive
    }

    /// An empty line for `shell`.
    pub fn new(shell: &'a Shell, interactive: bool) -> (r: Self)
        ensures
            r.text() == Seq::<char>::empty(),
            r.cursor_at() == 0,
            r.held() is None,
            r.shell_of() == *shell,
            r.is_interactive() == interactive,
    {
        LineEditor { line: String::new(), cursor: 0, tab: TabState::Idle, shell, interactive }
    }

    /// The line so far.
    pub fn line(&self) -> (r: &str)
        ensures
            r@ == self.text(),
    {
        self.line.as_str()
    }

    /// The cursor count.
    pub fn cursor(&self) -> (r: usize)
        ensures
            r == self.cursor_at(),
    {
        self.cursor
    }

    /// Whether a list of candidates is held for the next Tab.
    pub fn holds_list(&self) -> (r: bool)
        ensures
            r == self.held() is Some,
    {
        match &self.tab {
            TabState::Ambiguous(_) => true,
            TabState::Idle => false,
        }
    }

    /// The prompt and the line, as written to the terminal.
    pub fn render(&self) -> (r: String)
        ensures
            r@ == render_spec(self.text()),
    {
        let mut s = String::new();
        push_char(&mut s, '\r');
        push_char(&mut s, '$');
        push_char(&mut s, ' ');
        s.append(self.line.as_str());
        let c = clear_until_newline();
        s.append(c.as_str());
        assert(s@ =~= render_spec(self.text()));
        s
    }

    /// The end of a line, as written to the terminal.
    pub fn new_line(&self) -> (r: String)
        ensures
            r@ == newline_spec(self.is_interactive()),
    {
        let mut s = String::new();
        if self.interactive {
            push_char(&mut s, '\r');
        }
        push_char(&mut s, '\n');
        assert(s@ =~= newline_spec(self.is_interactive()));
        s
    }

    /// Takes the line out, leaving it empty.
    fn take_line(&mut self) -> (r: String)
        ensures
            r@ == old(self).text(),
            final(self).text() == Seq::<char>::empty(),
            final(self).cursor_at() == old(self).cursor_at(),
            final(self).held() == old(self).held(),
            final(self).shell_of() == old(self).shell_of(),
            final(self).is_interactive() == old(self).is_interactive(),
    {
        proof {
            use_type_invariant(&*self);
        }
        let r = self.line.clone();
        self.line = String::new();
        r
    }

    /// Handles one key. Every key but Tab drops the held list. Enter
    /// submits the line; Tab lists the held candidates, or else asks for a
    /// completion; another character is appended and echoed; Backspace
    /// removes the last character; Ctrl-C and Ctrl-D cancel; other keys are
    /// ignored.
    pub fn feed_key(&mut self, key: EditKey) -> (r: Feed)
        requires
            (key matches EditKey::Char(c) && c != '\n' && c != '\t') ==> old(self).cursor_at() < usize::MAX,
            (key == EditKey::Char('\t') && old(self).held() is None) ==> context_defined(old(self).text()),
        ensures
            final(self).shell_of() == old(self).shell_of(),
            final(self).is_interactive() == old(self).is_interactive(),
            final(self).held() is None,
            ({
                let l = old(self).text();
                let nl = newline_spec(old(self).is_interactive());
                if key == EditKey::Char('\n') {
                    &&& r matches Feed::Done { result: EditResult::Submitted(s), output } && s@ == l && output@ == nl
                    &&& final(self).text() == Seq::<char>::empty()
                    &&& final(self).cursor_at() == old(self).cursor_at()
                } else if key == EditKey::Char('\t') {
                    &&& final(self).text() == l
                    &&& final(self).cursor_at() == old(self).cursor_at()
                    &&& match old(self).held() {
                        Some(list) => r matches Feed::Done { result: EditResult::StillEditing, output }
                            && output@ == nl + join_words(list, "  "@) + nl + render_spec(l),
                        None => r matches Feed::Complete(step) && complete_spec(old(self).shell_of().completions@, l, step),
                    }
                } else if key is Char {
                    &&& r matches Feed::Done { result: EditResult::StillEditing, output } && output@ == seq![key->Char_0]
                    &&& final(self).text() == l.push(key->Char_0)
                    &&& final(self).cursor_at() == old(self).cursor_at() + 1
                } else if key == EditKey::Backspace {
                    if l.len() > 0 {
                        &&& r matches Feed::Done { result: EditResult::StillEditing, output } && output@ == (
                            if old(self).is_interactive() {
                                render_spec(l.drop_last())
                            } else {
                                seq!['\x08', ' ', '\x08']
                            })
                        &&& final(self).text() == l.drop_last()
                        &&& final(self).cursor_at() == old(self).cursor_at() - 1
                    } else {
                        &&& r matches Feed::Done { result: EditResult::StillEditing, output } && output@.len() == 0
                        &&& final(self).text() == l
                        &&& final(self).cursor_at() == old(self).cursor_at()
                    }
                } else if key == EditKey::Ctrl('c') || key == EditKey::Ctrl('d') {
                    &&& r matches Feed::Done { result: EditResult::Cancelled, output } && output@.len() == 0
                    &&& final(self).text() == l
                    &&& final(self).cursor_at() == old(self).cursor_at()
                } else {
                    &&& r matches Feed::Done { result: EditResult::StillEditing, output } && output@.len() == 0
                    &&& final(self).text() == l
                    &&& final(self).cursor_at() == old(self).cursor_at()
                }
            }),
    {
        proof {
            use_type_invariant(&*self);
        }
        let held: Option<Vec<String>> = match &self.tab {
            TabState::Ambiguous(list) => Some(list.clone()),
            TabState::Idle => None,
        };
        proof {
            if let Some(list) = &held {
                assert(views(list@) =~= old(self).held().unwrap());
            }
        }
        self.tab = TabState::Idle;
        match key {
            EditKey::Char('\n') => {
                let output = self.new_line();
                let line = self.take_line();
                Feed::Done { result: EditResult::Submitted(line), output }
            },
            EditKey::Char('\t') => {
                match held {
                    Some(list) => {
                        let mut output = self.new_line();
                        let listed = join_strings(list.as_slice(), "  ");
                        output.append(listed.as_str());
                        let nl = self.new_line();
                        output.append(nl.as_str());
                        let shown = self.render();
                        output.append(shown.as_str());
                        Feed::Done { result: EditResult::StillEditing, output }
                    },
                    None => Feed::Complete(complete(self.shell, self.line.as_str())),
                }
            },
            EditKey::Char(c) => {
                self.cursor = self.cursor + 1;
                let mut longer = self.line.clone();
                push_char(&mut longer, c);
                self.line = longer;
                let mut output = String::new();
                push_char(&mut output, c);
                assert(output@ =~= seq![c]);
                Feed::Done { result: EditResult::StillEditing, output }
            },
            EditKey::Backspace => {
                let v = chars_of(self.line.as_str());
                let n = v.len();
                if n > 0 {
                    let shorter = string_of_range(&v, 0, n - 1);
                    assert(shorter@ =~= v@.drop_last());
                    self.line = shorter;
                    self.cursor = self.cursor - 1;
                    let output = if self.interactive {
                        self.render()
                    } else {
                        let mut s = String::new();
                        push_char(&mut s, '\x08');
                        push_char(&mut s, ' ');
                        push_char(&mut s, '\x08');
                        assert(s@ =~= seq!['\x08', ' ', '\x08']);
                        s
                    };
                    Feed::Done { result: EditResult::StillEditing, output }
                } else {
                    Feed::Done { result: EditResult::StillEditing, output: String::new() }
                }
            },
            EditKey::Ctrl('c') | EditKey::Ctrl('d') => Feed::Done {
                result: EditResult::Cancelled,
                output: String::new(),
            },
            _ => Feed::Done { result: EditResult::StillEditing, output: String::new() },
        }
    }

    /// Ends a Tab once its completion is known: a bell where nothing or
    /// several candidates fit, then the action applied, then the prompt and
    /// the line written again.
    pub fn finish_tab(&mut self, a: CompletionAction) -> (r: String)
        requires
            a matches CompletionAction::Replace { start, .. } ==> can_cut(old(self).text(), start as nat),
        ensures
            final(self).text() == applied_line(old(self).text(), a),
            final(self).shell_of() == old(self).shell_of(),
            final(self).is_interactive() == old(self).is_interactive(),
            r@ == (if a is Replace {
                Seq::<char>::empty()
            } else {
                seq!['\x07']
            }) + render_spec(final(self).text()),
            match a {
                CompletionAction::Replace { .. } => final(self).held() is None
                    && final(self).cursor_at() == byte_len(final(self).text()),
                CompletionAction::Show(list) => final(self).held() == Some(views(list@))
                    && final(self).cursor_at() == old(self).cursor_at(),
                CompletionAction::NoMatch => final(self).held() == old(self).held()
                    && final(self).cursor_at() == old(self).cursor_at(),
            },
    {
        let bell = match &a {
            CompletionAction::Replace { .. } => false,
            _ => true,
        };
        let mut out = String::new();
        if bell {
            push_char(&mut out, '\x07');
        }
        self.apply(a);
        let shown = self.render();
        out.append(shown.as_str());
        out
    }

    /// Ctrl-C or Ctrl-D: an empty line ends the input; otherwise the line
    /// is taken as it stands, after a line break.
    pub fn cancel(&mut self) -> (r: (Option<String>, String))
        ensures
            final(self).text() == Seq::<char>::empty(),
            final(self).shell_of() == old(self).shell_of(),
            final(self).is_interactive() == old(self).is_interactive(),
            old(self).text().len() == 0 ==> r.0 is None && r.1@.len() == 0,
            old(self).text().len() > 0 ==> (r.0 matches Some(s) && s@ == old(self).text()
                && r.1@ == newline_spec(old(self).is_interactive())),
    {
        if self.line.as_str().unicode_len() == 0 {
            let _ = self.take_line();
            return (None, String::new());
        }
        let nl = self.new_line();
        let line = self.take_line();
        (Some(line), nl)
    }

    /// The keys ran out: the line, if it is not empty.
    pub fn end_of_input(&mut self) -> (r: Option<String>)
        ensures
            final(self).text() == Seq::<char>::empty(),
            old(self).text().len() == 0 ==> r is None,
            old(self).text().len() > 0 ==> (r matches Some(s) && s@ == old(self).text()),
    {
        if self.line.as_str().unicode_len() == 0 {
            let _ = self.take_line();
            return None;
        }
        Some(self.take_line())
    }

    /// Whether the completion action `a` can be applied to the line: a
    /// replacement must start between two characters or past the end.
    pub fn can_apply(&self, a: &CompletionAction) -> (r: bool)
        ensures
            r == (a matches CompletionAction::Replace { start, .. } ==> can_cut(self.text(), start as nat)),
    {
        match a {
            CompletionAction::Replace { start, .. } => {
                let v = chars_of(self.line.as_str());
                let total = byte_len_of(self.line.as_str());
                if *start >= total {
                    return true;
                }
                crate::text::has_cut(&v, v.len(), *start)
            },
            _ => true,
        }
    }

    /// Applies the completion action `a` to the line: a replacement cuts
    /// the line after `start` bytes, appends the text and, if asked, a space
    /// (not after a `/`), and sets the cursor count to the line's length in
    /// bytes; a list is held for the next Tab.
    pub fn apply(&mut self, a: CompletionAction)
        requires
            a matches CompletionAction::Replace { start, .. } ==> can_cut(old(self).text(), start as nat),
        ensures
            final(self).text() == applied_line(old(self).text(), a),
            final(self).shell_of() == old(self).shell_of(),
            final(self).is_interactive() == old(self).is_interactive(),
            match a {
                CompletionAction::Replace { .. } => final(self).held() is None
                    && final(self).cursor_at() == byte_len(final(self).text()),
                CompletionAction::Show(list) => final(self).held() == Some(views(list@))
                    && final(self).cursor_at() == old(self).cursor_at(),
                CompletionAction::NoMatch => final(self).held() == old(self).held()
                    && final(self).cursor_at() == old(self).cursor_at(),
            },
    {
        proof {
            use_type_invariant(&*self);
        }
        match a {
            CompletionAction::Replace { start, text, space } => {
                let v = chars_of(self.line.as_str());
                let total = byte_len_of(self.line.as_str());
                let ghost l = v@;
                let mut t = if start >= total {
                    self.line.clone()
                } else {
                    proof {
                        let k2 = choose|k: int| 0 <= k <= l.len() && #[trigger] byte_len(l.take(k)) == start;
                        assert(l.take(k2) =~= l.take(k2));
                    }
                    let k = find_cut(&v, v.len(), start);
                    proof {
                        let k2 = choose|k: int| 0 <= k <= l.len() && #[trigger] byte_len(l.take(k)) == start;
                        if k2 < k {
                            crate::text::lemma_byte_len_take(l, k2, k as int);
                        } else if k2 > k {
                            crate::text::lemma_byte_len_take(l, k as int, k2);
                        }
                    }
                    let s = string_of_range(&v, 0, k);
                    assert(s@ =~= l.take(k as int));
                    s
                };
                t.append(text.as_str());
                if space && !ends_with_char(text.as_str(), '/') {
                    push_char(&mut t, ' ');
                }
                let n = byte_len_of(t.as_str());
                proof {
                    lemma_byte_len_at_least_len(t@);
                }
                *self = LineEditor {
                    line: t,
                    cursor: n,
                    tab: TabState::Idle,
                    shell: self.shell,
                    interactive: self.interactive,
                };
            },
            CompletionAction::Show(list) => {
                self.tab = TabState::Ambiguous(list);
            },
            CompletionAction::NoMatch => {},
        }
    }
}

} // verus!
