//! Tab completion: what the word under the cursor is, which candidates fit
//! it, and how the line changes.
use vstd::prelude::*;
use crate::commands::builtins::{builtin_names, builtin_names_starting_with};
use crate::commands::parser::views;
use crate::order::{sort_strings, sorted};
use crate::commands::parser::{parse_words, words_of};
use crate::shell::Shell;
use crate::commands::output_text;
use crate::commands::parser::views as string_views;
use crate::text::{
    byte_len, byte_len_of, bytes_between, char_width, chars_of, ends_with_char, has_prefix,
    is_unicode_whitespace, last_ws, last_ws_in, lemma_byte_len_subrange, lemma_byte_len_take,
    lemma_char_width, lemma_last_ws, string_of, string_of_range, str_eq, trim_bounds, trim_ws,
    utf8_width,
};

verus! {

/// What a press of Tab does to the line.
pub enum CompletionAction {
    /// Replace everything from byte `start` on with `text`, then add a
    /// space if `space` holds (and `text` does not end with `/`).
    Replace { start: usize, text: String, space: bool },
    /// Several candidates fit: list them.
    Show(Vec<String>),
    /// Nothing fits.
    NoMatch,
}

/// `p` starts each of `cs`.
pub open spec fn is_common_prefix(p: Seq<char>, cs: Seq<Seq<char>>) -> bool {
    forall|i: int| 0 <= i < cs.len() ==> has_prefix(#[trigger] cs[i], p)
}

/// No common prefix of `cs` is longer than `p`: one of `cs` ends after
/// `p`, or two of them differ right after it.
pub open spec fn cannot_grow(p: Seq<char>, cs: Seq<Seq<char>>) -> bool {
    ||| exists|i: int| 0 <= i < cs.len() && #[trigger] cs[i].len() == p.len()
    ||| exists|i: int, j: int|
        0 <= i < cs.len() && 0 <= j < cs.len() && #[trigger] cs[i][p.len() as int]
            != #[trigger] cs[j][p.len() as int]
}

/// `p` is the longest common prefix of `cs`; for no strings, it is empty.
pub open spec fn is_longest_common_prefix(p: Seq<char>, cs: Seq<Seq<char>>) -> bool {
    if cs.len() == 0 {
        p.len() == 0
    } else {
        is_common_prefix(p, cs) && cannot_grow(p, cs)
    }
}

/// The longest common prefix of `cs`.
pub open spec fn longest_common_prefix(cs: Seq<Seq<char>>) -> Seq<char> {
    choose|p: Seq<char>| is_longest_common_prefix(p, cs)
}

/// There is only one longest common prefix.
pub proof fn longest_common_prefix_is_unique(p: Seq<char>, q: Seq<char>, cs: Seq<Seq<char>>)
    requires
        is_longest_common_prefix(p, cs),
        is_longest_common_prefix(q, cs),
    ensures
        p == q,
{
    if cs.len() == 0 {
        assert(p =~= q);
    } else {
        if p.len() < q.len() {
            lemma_longer_prefix_grows(p, q, cs);
        } else if q.len() < p.len() {
            lemma_longer_prefix_grows(q, p, cs);
        }
        assert(has_prefix(cs[0], p));
        assert(has_prefix(cs[0], q));
        assert(p =~= q);
    }
}

proof fn lemma_longer_prefix_grows(p: Seq<char>, q: Seq<char>, cs: Seq<Seq<char>>)
    requires
        cs.len() > 0,
        is_common_prefix(p, cs),
        is_common_prefix(q, cs),
        p.len() < q.len(),
    ensures
        !cannot_grow(p, cs),
{
    assert forall|i: int| 0 <= i < cs.len() implies #[trigger] cs[i].len() != p.len() by {
        assert(has_prefix(cs[i], q));
    }
    assert forall|i: int, j: int| 0 <= i < cs.len() && 0 <= j < cs.len() implies #[trigger] cs[i][p.len() as int]
        == #[trigger] cs[j][p.len() as int] by {
        assert(has_prefix(cs[i], q));
        assert(has_prefix(cs[j], q));
        assert(cs[i].take(q.len() as int)[p.len() as int] == q[p.len() as int]);
        assert(cs[j].take(q.len() as int)[p.len() as int] == q[p.len() as int]);
    }
}

/// The longest common prefix of the candidates, compared character by character.
pub fn common_prefix(candidates: &[String]) -> (r: String)
    ensures
        is_longest_common_prefix(r@, views(candidates@)),
        r@ == longest_common_prefix(views(candidates@)),
{
    let ghost cs = views(candidates@);
    if candidates.len() == 0 {
        let r = String::new();
        proof {
            assert(is_longest_common_prefix(r@, cs));
        longest_common_prefix_is_unique(r@, longest_common_prefix(cs), cs);
        }
        return r;
    }
    let mut prefix = chars_of(candidates[0].as_str());
    proof {
        assert(cs[0].take(cs[0].len() as int) =~= cs[0]);
        assert(cs.take(1)[0] == cs[0]);
    }
    let mut i: usize = 1;
    while i < candidates.len()
        invariant
            1 <= i <= candidates@.len(),
            cs == views(candidates@),
            is_common_prefix(prefix@, cs.take(i as int)),
            cannot_grow(prefix@, cs.take(i as int)),
        decreases candidates@.len() - i,
    {
        let ghost p0 = prefix@;
        let c = chars_of(candidates[i].as_str());
        let mut k: usize = 0;
        while k < prefix.len() && k < c.len() && prefix[k] == c[k]
            invariant
                k <= prefix@.len(),
                k <= c@.len(),
                prefix@ == p0,
                forall|j: int| 0 <= j < k ==> prefix@[j] == c@[j],
            decreases prefix@.len() - k,
        {
            k = k + 1;
        }
        prefix.truncate(k);
        let ghost p1 = prefix@;
        proof {
            let before = cs.take(i as int);
            let after = cs.take(i + 1);
            assert(p1 =~= p0.take(k as int));
            assert forall|j: int| 0 <= j < after.len() implies has_prefix(#[trigger] after[j], p1) by {
                if j < i {
                    assert(after[j] == before[j]);
                    assert(has_prefix(before[j], p0));
                    assert(after[j].take(k as int) =~= after[j].take(p0.len() as int).take(k as int));
                } else {
                    assert(after[j] == c@);
                    assert(c@.take(k as int) =~= p1);
                }
            }
            if k == p0.len() {
                if exists|a: int| 0 <= a < before.len() && #[trigger] before[a].len() == p0.len() {
                    let a = choose|a: int| 0 <= a < before.len() && #[trigger] before[a].len() == p0.len();
                    assert(after[a] == before[a]);
                } else {
                    let (a, b) = choose|a: int, b: int|
                        0 <= a < before.len() && 0 <= b < before.len() && #[trigger] before[a][p0.len() as int]
                            != #[trigger] before[b][p0.len() as int];
                    assert(after[a] == before[a]);
                    assert(after[b] == before[b]);
                }
            } else if k == c.len() {
                assert(after[i as int].len() == p1.len());
            } else {
                assert(has_prefix(before[0], p0));
                assert(before[0].take(p0.len() as int)[k as int] == p0[k as int]);
                assert(after[0] == before[0]);
                assert(after[i as int][k as int] != after[0][k as int]);
            }
        }
        i = i + 1;
        if prefix.len() == 0 {
            proof {
                let seen = cs.take(i as int);
                assert forall|j: int| 0 <= j < cs.len() implies has_prefix(#[trigger] cs[j], prefix@) by {
                    assert(cs[j].take(0) =~= prefix@);
                }
                if exists|a: int| 0 <= a < seen.len() && #[trigger] seen[a].len() == prefix@.len() {
                    let a = choose|a: int| 0 <= a < seen.len() && #[trigger] seen[a].len() == prefix@.len();
                    assert(cs[a] == seen[a]);
                } else {
                    let (a, b) = choose|a: int, b: int|
                        0 <= a < seen.len() && 0 <= b < seen.len() && #[trigger] seen[a][prefix@.len() as int]
                            != #[trigger] seen[b][prefix@.len() as int];
                    assert(cs[a] == seen[a]);
                    assert(cs[b] == seen[b]);
                }
                assert(cs.take(cs.len() as int) =~= cs);
            }
            i = candidates.len();
        }
    }
    assert(cs.take(candidates@.len() as int) =~= cs);
    let r = string_of(&prefix);
    proof {
        assert(is_longest_common_prefix(r@, cs));
        longest_common_prefix_is_unique(r@, longest_common_prefix(cs), cs);
    }
    r
}

/// The action for the word `word`, which starts at byte `word_start`, and
/// the candidates `cs` that fit it: the only candidate replaces the word,
/// followed by a space unless it ends with one; otherwise a common prefix
/// longer than the word (in bytes) replaces it; otherwise two or more
/// candidates are listed in order; otherwise nothing happens.
pub open spec fn reduce_spec(word_start: usize, word: Seq<char>, cs: Seq<Seq<char>>, r: CompletionAction) -> bool {
    let p = longest_common_prefix(cs);
    if cs.len() == 1 {
        r matches CompletionAction::Replace { start, text, space } && start == word_start
            && text@ == cs[0] && space == !(cs[0].len() > 0 && cs[0].last() == ' ')
    } else if byte_len(p) > byte_len(word) {
        r matches CompletionAction::Replace { start, text, space } && start == word_start
            && text@ == p && !space
    } else if cs.len() > 1 {
        r matches CompletionAction::Show(list) && sorted(views(list@)) && views(list@).to_multiset()
            == cs.to_multiset()
    } else {
        r is NoMatch
    }
}

/// Chooses what Tab does for `word`, which starts at byte `word_start`,
/// given the candidates that fit it. See `reduce_spec`.
pub fn reduce(word_start: usize, word: &str, candidates: Vec<String>) -> (r: CompletionAction)
    ensures
        reduce_spec(word_start, word@, views(candidates@), r),
{
    let prefix = common_prefix(candidates.as_slice());
    if candidates.len() == 1 {
        let text = candidates[0].clone();
        let space = !ends_with_char(text.as_str(), ' ');
        CompletionAction::Replace { start: word_start, text, space }
    } else if byte_len_of(prefix.as_str()) > byte_len_of(word) {
        CompletionAction::Replace { start: word_start, text: prefix, space: false }
    } else if candidates.len() > 1 {
        CompletionAction::Show(sort_strings(candidates))
    } else {
        CompletionAction::NoMatch
    }
}

/// Whether `v` holds a string equal to `s`.
pub fn contains_string(v: &Vec<String>, s: &str) -> (r: bool)
    ensures
        r == views(v@).contains(s@),
{
    let mut i: usize = 0;
    while i < v.len()
        invariant
            i <= v@.len(),
            forall|j: int| 0 <= j < i ==> views(v@)[j] != s@,
        decreases v@.len() - i,
    {
        if str_eq(v[i].as_str(), s) {
            assert(views(v@)[i as int] == s@);
            return true;
        }
        i = i + 1;
    }
    false
}

/// `acc` followed by those of `es` that are not in it yet, in order, each once.
pub open spec fn add_missing(acc: Seq<Seq<char>>, es: Seq<Seq<char>>) -> Seq<Seq<char>>
    decreases es.len(),
{
    if es.len() == 0 {
        acc
    } else {
        let a = add_missing(acc, es.drop_last());
        if a.contains(es.last()) {
            a
        } else {
            a.push(es.last())
        }
    }
}

/// The command names that complete `prefix`: the builtins that start with
/// it, in table order, then the executables found on the program path,
/// `on_path`, that are not listed yet.
pub open spec fn exe_candidates_spec(prefix: Seq<char>, on_path: Seq<Seq<char>>) -> Seq<Seq<char>> {
    add_missing(builtin_names().filter(|n: Seq<char>| has_prefix(n, prefix)), on_path)
}

/// The command names that complete `prefix`, given the names of the
/// executables on the program path that start with it. See `exe_candidates_spec`.
pub fn exe_candidates(prefix: &str, on_path: &[String]) -> (r: Vec<String>)
    ensures
        views(r@) == exe_candidates_spec(prefix@, views(on_path@)),
{
    let mut cands = builtin_names_starting_with(prefix);
    let ghost base = views(cands@);
    let ghost es = views(on_path@);
    let mut i: usize = 0;
    while i < on_path.len()
        invariant
            i <= on_path@.len(),
            es == views(on_path@),
            base == builtin_names().filter(|n: Seq<char>| has_prefix(n, prefix@)),
            views(cands@) == add_missing(base, es.take(i as int)),
        decreases on_path@.len() - i,
    {
        assert(es.take(i + 1).drop_last() =~= es.take(i as int));
        assert(es.take(i + 1).last() == on_path@[i as int]@);
        if !contains_string(&cands, on_path[i].as_str()) {
            let ghost before = views(cands@);
            cands.push(on_path[i].clone());
            assert(views(cands@) =~= before.push(on_path@[i as int]@));
        }
        i = i + 1;
    }
    assert(es.take(on_path@.len() as int) =~= es);
    cands
}

/// The position of the last `/` of `s`, or -1.
pub open spec fn last_slash(s: Seq<char>) -> int
    decreases s.len(),
{
    if s.len() == 0 {
        -1
    } else if s.last() == '/' {
        s.len() - 1
    } else {
        last_slash(s.drop_last())
    }
}

/// `s` split at its last `/` into the directory part and the name part
/// (`str::rsplit_once('/')`), if it holds a `/`.
pub open spec fn split_at_last_slash(s: Seq<char>) -> Option<(Seq<char>, Seq<char>)> {
    let i = last_slash(s);
    if i < 0 {
        None
    } else {
        Some((s.take(i), s.skip(i + 1)))
    }
}

proof fn lemma_last_slash(s: Seq<char>)
    ensures
        -1 <= last_slash(s) < s.len(),
        last_slash(s) >= 0 ==> s[last_slash(s)] == '/',
        forall|j: int| last_slash(s) < j < s.len() ==> s[j] != '/',
    decreases s.len(),
{
    if s.len() > 0 {
        lemma_last_slash(s.drop_last());
        assert forall|j: int| last_slash(s) < j < s.len() implies s[j] != '/' by {
            if j < s.len() - 1 {
                assert(s[j] == s.drop_last()[j]);
            }
        }
    }
}

/// The position of the last `/` of `w`, if any.
fn find_last_slash(w: &Vec<char>) -> (r: Option<usize>)
    ensures
        match r {
            Some(i) => i == last_slash(w@) && i < w@.len(),
            None => last_slash(w@) < 0,
        },
{
    proof {
        lemma_last_slash(w@);
    }
    let mut i = w.len();
    assert(w@.take(i as int) =~= w@);
    while i > 0
        invariant
            i <= w@.len(),
            last_slash(w@) == last_slash(w@.take(i as int)),
        decreases i,
    {
        assert(w@.take(i as int).drop_last() =~= w@.take(i - 1));
        if w[i - 1] == '/' {
            return Some(i - 1);
        }
        i = i - 1;
    }
    None
}

/// The directory whose entries complete `word`: the part before its last
/// `/`, or `None` for the current directory when it holds no `/`.
pub fn listing_dir(word: &str) -> (r: Option<String>)
    ensures
        match split_at_last_slash(word@) {
            Some((dir, _)) => r matches Some(d) && d@ == dir,
            None => r is None,
        },
{
    let w = chars_of(word);
    match find_last_slash(&w) {
        Some(i) => Some(crate::text::string_of_range(&w, 0, i)),
        None => None,
    }
}

/// How a directory entry named `n` is offered: a directory gets a final
/// `/`, and the name is joined to the directory `base` that the word named.
pub open spec fn entry_text(base: Option<Seq<char>>, n: Seq<char>, is_dir: bool) -> Seq<char> {
    let m = if is_dir {
        n.push('/')
    } else {
        n
    };
    match base {
        Some(b) => crate::text::path_join(b, m),
        None => m,
    }
}

/// The entries of `names` that start with `fp`, in order, as offered.
pub open spec fn matching_entries(
    names: Seq<Seq<char>>,
    fp: Seq<char>,
    base: Option<Seq<char>>,
    is_dir: bool,
) -> Seq<Seq<char>> {
    names.filter(|n: Seq<char>| has_prefix(n, fp)).map_values(
        |n: Seq<char>| entry_text(base, n, is_dir),
    )
}

fn offer_entries(names: &[String], fp: &str, base: Option<&str>, is_dir: bool, out: &mut Vec<String>)
    ensures
        views(final(out)@) == views(old(out)@) + matching_entries(
            views(names@),
            fp@,
            crate::text::opt_view(base),
            is_dir,
        ),
{
    let ghost ns = views(names@);
    let ghost start = views(out@);
    let ghost keep = |n: Seq<char>| has_prefix(n, fp@);
    let ghost f = |n: Seq<char>| entry_text(crate::text::opt_view(base), n, is_dir);
    let mut i: usize = 0;
    while i < names.len()
        invariant
            i <= names@.len(),
            ns == views(names@),
            keep == (|n: Seq<char>| has_prefix(n, fp@)),
            f == (|n: Seq<char>| entry_text(crate::text::opt_view(base), n, is_dir)),
            views(out@) == start + ns.take(i as int).filter(keep).map_values(f),
        decreases names@.len() - i,
    {
        let ghost before = ns.take(i as int).filter(keep);
        assert(ns.take(i + 1).drop_last() =~= ns.take(i as int));
        assert(ns.take(i + 1).last() == names@[i as int]@);
        reveal_with_fuel(Seq::filter, 1);
        if crate::text::starts_with(names[i].as_str(), fp) {
            let mut m = names[i].clone();
            if is_dir {
                crate::text::push_char(&mut m, '/');
            }
            let t = match base {
                Some(b) => crate::text::join_path(b, m.as_str()),
                None => m,
            };
            let ghost prev = views(out@);
            out.push(t);
            assert(views(out@) =~= prev.push(f(names@[i as int]@)));
            assert(before.push(names@[i as int]@).map_values(f) =~= before.map_values(f).push(
                f(names@[i as int]@),
            ));
        }
        i = i + 1;
    }
    assert(ns.take(names@.len() as int) =~= ns);
}

/// The file names that complete `word`, given the names of the files and
/// of the directories in the directory that `listing_dir` names: first the
/// files, then the directories with a final `/`, each kept when it starts
/// with the part of `word` after its last `/` and joined to the part before.
pub open spec fn file_candidates_spec(word: Seq<char>, files: Seq<Seq<char>>, dirs: Seq<Seq<char>>) -> Seq<Seq<char>> {
    match split_at_last_slash(word) {
        Some((dir, fp)) => matching_entries(files, fp, Some(dir), false) + matching_entries(dirs, fp, Some(dir), true),
        None => matching_entries(files, word, None, false) + matching_entries(dirs, word, None, true),
    }
}

/// The file names that complete `word`. See `file_candidates_spec`.
pub fn file_candidates(word: &str, files: &[String], dirs: &[String]) -> (r: Vec<String>)
    ensures
        views(r@) == file_candidates_spec(word@, views(files@), views(dirs@)),
{
    let w = chars_of(word);
    let n = w.len();
    let mut out: Vec<String> = Vec::new();
    match find_last_slash(&w) {
        Some(i) => {
            let dir = crate::text::string_of_range(&w, 0, i);
            let fp = crate::text::string_of_range(&w, i + 1, n);
            assert(dir@ =~= word@.take(i as int));
            assert(fp@ =~= word@.skip(i + 1));
            offer_entries(files, fp.as_str(), Some(dir.as_str()), false, &mut out);
            offer_entries(dirs, fp.as_str(), Some(dir.as_str()), true, &mut out);
        },
        None => {
            offer_entries(files, word, None, false, &mut out);
            offer_entries(dirs, word, None, true, &mut out);
        },
    }
    assert(views(out@) =~= file_candidates_spec(word@, views(files@), views(dirs@)));
    out
}

/// The word under the cursor: what follows the last whitespace of the line.
pub open spec fn ctx_word(l: Seq<char>) -> Seq<char> {
    if last_ws(l) < 0 {
        l
    } else {
        l.skip(last_ws(l) + 1)
    }
}

/// The byte at which the word under the cursor starts: one past the byte at
/// which the last whitespace character starts, or 0.
pub open spec fn ctx_word_start(l: Seq<char>) -> nat {
    if last_ws(l) < 0 {
        0
    } else {
        byte_len(l.take(last_ws(l))) + 1
    }
}

/// The line up to and with its last whitespace character.
pub open spec fn ctx_prefix(l: Seq<char>) -> Seq<char> {
    if last_ws(l) < 0 {
        Seq::empty()
    } else {
        l.take(last_ws(l) + 1)
    }
}

/// Where the previous word is taken from: one past the byte at which the
/// last whitespace character of the trimmed prefix starts within that
/// trimmed text, or 0 where it has none. The offset is then applied to the
/// untrimmed prefix.
pub open spec fn prev_offset(l: Seq<char>) -> nat {
    let t = trim_ws(ctx_prefix(l));
    if last_ws(t) < 0 {
        0
    } else {
        byte_len(t.take(last_ws(t))) + 1
    }
}

/// The number of characters of the prefix that take `prev_offset` bytes.
pub open spec fn prev_cut(l: Seq<char>) -> int {
    choose|k: int| 0 <= k <= ctx_prefix(l).len() && byte_len(ctx_prefix(l).take(k)) == prev_offset(l)
}

/// The word before the word under the cursor, when there is one.
pub open spec fn ctx_previous_word(l: Seq<char>) -> Option<Seq<char>> {
    if prev_offset(l) == 0 {
        None
    } else {
        Some(trim_ws(ctx_prefix(l).skip(prev_cut(l))))
    }
}

/// The line can be cut where the completion context cuts it: its last
/// whitespace character, if any, takes one byte, and `prev_offset` falls
/// between two characters of the prefix. On any other line the cut would
/// fall inside a character.
pub open spec fn context_defined(l: Seq<char>) -> bool {
    &&& (last_ws(l) < 0 || char_width(l[last_ws(l)]) == 1)
    &&& (prev_offset(l) == 0 || exists|k: int|
        0 <= k <= ctx_prefix(l).len() && #[trigger] byte_len(ctx_prefix(l).take(k)) == prev_offset(l))
}

/// The command of the line: its first word, or nothing.
pub open spec fn ctx_command(line: Seq<char>) -> Seq<char> {
    if words_of(line).len() == 0 {
        Seq::empty()
    } else {
        words_of(line)[0]
    }
}

/// The program whose first argument is being completed: the only word of a
/// line that ends with a space.
pub open spec fn ctx_first_arg_of(line: Seq<char>) -> Option<Seq<char>> {
    if line.len() > 0 && words_of(line).len() == 1 && line.last() == ' ' {
        Some(words_of(line)[0])
    } else {
        None
    }
}

/// What completion needs to know about the line.
struct CompletionCtx {
    word: String,
    word_start: usize,
    command_position: bool,
    command: String,
    first_arg_of: Option<String>,
    previous_word: Option<String>,
}

/// The word under the cursor, the byte at which it starts, and the number
/// of characters of the prefix before it.
fn word_part(v: &Vec<char>) -> (r: (String, usize, usize))
    requires
        byte_len(v@) <= usize::MAX,
        last_ws(v@) < 0 || char_width(v@[last_ws(v@)]) == 1,
    ensures
        r.0@ == ctx_word(v@),
        r.1 == ctx_word_start(v@),
        ctx_prefix(v@) == v@.take(r.2 as int),
        r.2 <= v@.len(),
        (r.2 == 0) == (last_ws(v@) < 0),
{
    let ghost l = v@;
    let n = v.len();
    proof {
        lemma_last_ws(l);
        assert(v@.subrange(0, n as int) =~= l);
    }
    match last_ws_in(v, 0, n) {
        Some(j) => {
            proof {
                assert(v@.subrange(0, j as int) =~= l.take(j as int));
                assert(l.take(j + 1).drop_last() =~= l.take(j as int));
                lemma_byte_len_subrange(l, 0, j + 1);
                assert(l.subrange(0, j + 1) =~= l.take(j + 1));
                lemma_char_width(l[j as int]);
            }
            let before = bytes_between(v, 0, j);
            let w = string_of_range(v, j + 1, n);
            assert(w@ =~= l.skip(j + 1));
            (w, before + 1, j + 1)
        },
        None => {
            let w = string_of(v);
            assert(l.take(0) =~= Seq::<char>::empty());
            (w, 0, 0)
        },
    }
}

/// `prev_offset` of the line `v`, whose prefix has `plen` characters.
fn prev_offset_of(v: &Vec<char>, plen: usize) -> (off: usize)
    requires
        byte_len(v@) <= usize::MAX,
        plen <= v@.len(),
        ctx_prefix(v@) == v@.take(plen as int),
    ensures
        off == prev_offset(v@),
{
    let ghost l = v@;
    let ghost p = ctx_prefix(l);
    assert(p =~= v@.subrange(0, plen as int));
    let (a, b) = trim_bounds(v, 0, plen);
    let ghost t = trim_ws(p);
    match last_ws_in(v, a, b) {
        Some(i) => {
            proof {
                assert(t.take(i as int) =~= v@.subrange(a as int, a + i));
                let s2 = v@.subrange(a as int, a + i + 1);
                assert(s2.drop_last() =~= v@.subrange(a as int, a + i));
                lemma_char_width(s2.last());
                lemma_byte_len_subrange(l, a as int, a + i + 1);
            }
            bytes_between(v, a, a + i) + 1
        },
        None => 0,
    }
}

/// The previous word of the line `v`, whose prefix has `plen` characters.
fn previous_part(v: &Vec<char>, plen: usize) -> (r: Option<String>)
    requires
        byte_len(v@) <= usize::MAX,
        plen <= v@.len(),
        ctx_prefix(v@) == v@.take(plen as int),
        context_defined(v@),
    ensures
        match ctx_previous_word(v@) {
            Some(p) => r matches Some(s) && s@ == p,
            None => r is None,
        },
{
    let ghost l = v@;
    let ghost p = ctx_prefix(l);
    let off = prev_offset_of(v, plen);
    if off == 0 {
        return None;
    }
    proof {
        let k2 = choose|k2: int| 0 <= k2 <= p.len() && #[trigger] byte_len(p.take(k2)) == off;
        assert(p.take(k2) =~= l.take(k2));
    }
    let k = crate::text::find_cut(v, plen, off);
    assert(p.take(k as int) =~= l.take(k as int));
    let (c, d) = trim_bounds(v, k, plen);
    assert(p.skip(k as int) =~= v@.subrange(k as int, plen as int));
    proof {
        let k2 = prev_cut(l);
        assert(0 <= k2 <= p.len() && byte_len(p.take(k2)) == off);
        assert(p.take(k2) =~= l.take(k2));
        if k2 < k {
            lemma_byte_len_take(l, k2, k as int);
        } else if k2 > k {
            lemma_byte_len_take(l, k as int, k2);
        }
    }
    Some(string_of_range(v, c, d))
}

/// Whether completion can cut `line` where it needs to (see `context_defined`).
pub fn can_complete(line: &str) -> (r: bool)
    ensures
        r == context_defined(line@),
{
    let ghost l = line@;
    // the line's length in bytes fits in a usize
    let _ = byte_len_of(line);
    let v = chars_of(line);
    let n = v.len();
    proof {
        lemma_last_ws(l);
        assert(v@.subrange(0, n as int) =~= l);
    }
    if let Some(j) = last_ws_in(&v, 0, n) {
        if utf8_width(v[j]) != 1 {
            return false;
        }
    }
    let (_, _, plen) = word_part(&v);
    let off = prev_offset_of(&v, plen);
    if off == 0 {
        return true;
    }
    let r = crate::text::has_cut(&v, plen, off);
    proof {
        let p = ctx_prefix(l);
        assert forall|k: int| 0 <= k <= plen implies #[trigger] p.take(k) == l.take(k) by {
            assert(p.take(k) =~= l.take(k));
        }
        if r {
            let k = choose|k: int| 0 <= k <= plen && #[trigger] byte_len(l.take(k)) == off;
            assert(p.take(k) == l.take(k));
            assert(byte_len(p.take(k)) == prev_offset(l));
        }
        if context_defined(l) {
            let k = choose|k: int| 0 <= k <= p.len() && #[trigger] byte_len(p.take(k)) == prev_offset(l);
            assert(p.take(k) == l.take(k));
            assert(byte_len(l.take(k)) == off);
        }
    }
    r
}

/// The completion context of `line`.
fn context(line: &str) -> (r: CompletionCtx)
    requires
        context_defined(line@),
    ensures
        r.word@ == ctx_word(line@),
        r.word_start == ctx_word_start(line@),
        r.command_position == (last_ws(line@) < 0),
        r.command@ == ctx_command(line@),
        match ctx_first_arg_of(line@) {
            Some(p) => r.first_arg_of matches Some(s) && s@ == p,
            None => r.first_arg_of is None,
        },
        match ctx_previous_word(line@) {
            Some(p) => r.previous_word matches Some(s) && s@ == p,
            None => r.previous_word is None,
        },
{
    // the line's length in bytes fits in a usize
    let _ = byte_len_of(line);
    let v = chars_of(line);
    let n = v.len();
    let (word, word_start, plen) = word_part(&v);
    let previous_word = previous_part(&v, plen);
    let words = parse_words(line);
    let command = if words.len() == 0 {
        String::new()
    } else {
        words[0].clone()
    };
    let first_arg_of = if n > 0 && words.len() == 1 && v[n - 1] == ' ' {
        Some(words[0].clone())
    } else {
        None
    };
    CompletionCtx {
        word,
        word_start,
        command_position: plen == 0,
        command,
        first_arg_of,
        previous_word,
    }
}

/// What completing a line needs from outside the shell.
pub enum CompletionStep {
    /// A command name is completed: the names of the executables on the
    /// program path that start with `word` go to `complete_with_commands`.
    Commands { word_start: usize, word: String },
    /// A completion script decides: run `script` with `args`; its standard
    /// output goes to `complete_with_script` with `start`.
    Script { start: usize, script: String, args: Vec<String> },
    /// A file name is completed: the files and the directories of the
    /// directory that `listing_dir(word)` names go to `complete_with_files`.
    Files { word_start: usize, word: String },
}

/// The arguments of a completion script: the command, the word under the
/// cursor and the previous word (or nothing).
pub open spec fn script_args(line: Seq<char>) -> Seq<Seq<char>> {
    seq![
        ctx_command(line),
        ctx_word(line),
        match ctx_previous_word(line) {
            Some(p) => p,
            None => Seq::empty(),
        },
    ]
}

/// What completing `line` starts with, given the registered scripts
/// `table`: in command position, the command names; after the only word of
/// a line that ends with a space, the script registered for that word,
/// replacing nothing at the end of the line; with a previous word, the
/// script registered for the command, replacing the word under the cursor;
/// otherwise the file names.
pub open spec fn complete_spec(table: Map<Seq<char>, Seq<char>>, l: Seq<char>, r: CompletionStep) -> bool {
    if last_ws(l) < 0 {
        r matches CompletionStep::Commands { word_start, word } && word_start == ctx_word_start(l)
            && word@ == ctx_word(l)
    } else if ctx_first_arg_of(l) is Some && table.contains_key(ctx_first_arg_of(l).unwrap()) {
        r matches CompletionStep::Script { start, script, args } && start == byte_len(l)
            && script@ == table[ctx_first_arg_of(l).unwrap()] && string_views(args@)
            == script_args(l)
    } else if ctx_previous_word(l) is Some && table.contains_key(ctx_command(l)) {
        r matches CompletionStep::Script { start, script, args } && start == byte_len(l)
            - byte_len(ctx_word(l)) && script@ == table[ctx_command(l)] && string_views(args@)
            == script_args(l)
    } else {
        r matches CompletionStep::Files { word_start, word } && word_start == ctx_word_start(l)
            && word@ == ctx_word(l)
    }
}

fn script_args_of(ctx: &CompletionCtx) -> (r: Vec<String>)
    ensures
        string_views(r@) == seq![
            ctx.command@,
            ctx.word@,
            match ctx.previous_word {
                Some(p) => p@,
                None => Seq::empty(),
            },
        ],
{
    let prev = match &ctx.previous_word {
        Some(p) => p.clone(),
        None => String::new(),
    };
    let r = vec![ctx.command.clone(), ctx.word.clone(), prev];
    assert(string_views(r@) =~= seq![
        ctx.command@,
        ctx.word@,
        match ctx.previous_word {
            Some(p) => p@,
            None => Seq::empty(),
        },
    ]);
    r
}

/// Starts completing `line`. See `complete_spec`.
pub fn complete(shell: &Shell, line: &str) -> (r: CompletionStep)
    requires
        context_defined(line@),
    ensures
        complete_spec(shell.completions@, line@, r),
{
    let ctx = context(line);
    let ghost prev_view = match &ctx.previous_word {
        Some(p) => p@,
        None => Seq::<char>::empty(),
    };
    assert(prev_view == script_args(line@)[2]);
    assert(seq![ctx.command@, ctx.word@, prev_view] =~= script_args(line@));
    if ctx.command_position {
        return CompletionStep::Commands { word_start: ctx.word_start, word: ctx.word };
    }
    let first_script = match &ctx.first_arg_of {
        Some(program) => shell.completion_script(program.as_str()),
        None => None,
    };
    assert(first_script is None ==> !(ctx_first_arg_of(line@) is Some
        && shell.completions@.contains_key(ctx_first_arg_of(line@).unwrap())));
    if let Some(script) = first_script {
        let args = script_args_of(&ctx);
        let start = byte_len_of(line);
        let sc = script.to_owned();
        assert(string_views(args@) == script_args(line@));
        return CompletionStep::Script { start, script: sc, args };
    }
    if ctx.previous_word.is_some() {
        if let Some(script) = shell.completion_script(ctx.command.as_str()) {
            let args = script_args_of(&ctx);
            let total = byte_len_of(line);
            let wlen = byte_len_of(ctx.word.as_str());
            proof {
                lemma_last_ws(line@);
                let j = last_ws(line@);
                assert(ctx.word@ =~= line@.subrange(j + 1, line@.len() as int));
                lemma_byte_len_subrange(line@, j + 1, line@.len() as int);
            }
            let sc = script.to_owned();
            assert(total - wlen == byte_len(line@) - byte_len(ctx_word(line@)));
            assert(string_views(args@) == script_args(line@));
            return CompletionStep::Script { start: total - wlen, script: sc, args };
        }
    }
    CompletionStep::Files { word_start: ctx.word_start, word: ctx.word }
}

/// Completes a command name, given the names of the executables on the
/// program path that start with `word`.
pub fn complete_with_commands(word_start: usize, word: &str, on_path: &[String]) -> (r: CompletionAction)
    ensures
        reduce_spec(word_start, word@, exe_candidates_spec(word@, views(on_path@)), r),
{
    reduce(word_start, word, exe_candidates(word, on_path))
}

/// Completes a file name, given the files and the directories of the
/// directory that `listing_dir(word)` names.
pub fn complete_with_files(word_start: usize, word: &str, files: &[String], dirs: &[String]) -> (r: CompletionAction)
    ensures
        reduce_spec(word_start, word@, file_candidates_spec(word@, views(files@), views(dirs@)), r),
{
    reduce(word_start, word, file_candidates(word, files, dirs))
}

/// Completes with what a completion script wrote to its standard output
/// (nothing, where the script is no executable file): the text replaces the
/// line from byte `start` on and is followed by a space.
pub fn complete_with_script(start: usize, stdout: &[u8]) -> (r: CompletionAction)
    ensures
        r matches CompletionAction::Replace { start: s, text, space } && s == start && text@
            == crate::commands::lossy_utf8(crate::text::trim_end_bytes(stdout@)) && space,
{
    CompletionAction::Replace { start, text: output_text(stdout), space: true }
}

/// A character that stands for itself in a command line: ASCII, and no
/// whitespace, quote or backslash.
pub open spec fn is_plain_char(c: char) -> bool {
    (c as u32) < 0x80 && !is_unicode_whitespace(c) && c != '\'' && c != '"' && c != '\\'
}

/// A non-empty word of plain characters.
pub open spec fn is_plain_word(w: Seq<char>) -> bool {
    w.len() > 0 && forall|i: int| 0 <= i < w.len() ==> is_plain_char(#[trigger] w[i])
}

proof fn lemma_scan_plain(w: Seq<char>, i: int)
    requires
        0 <= i <= w.len(),
        forall|k: int| 0 <= k < w.len() ==> is_plain_char(#[trigger] w[k]),
    ensures
        crate::commands::parser::scan(w.map_values(|c: char| (c as u32) as u8).take(i)) == (
            crate::commands::parser::State::Default,
            Seq::<Seq<char>>::empty(),
            w.take(i),
        ),
    decreases i,
{
    let bytes = w.map_values(|c: char| (c as u32) as u8);
    if i == 0 {
        assert(bytes.take(0) =~= Seq::<u8>::empty());
        assert(w.take(0) =~= Seq::<char>::empty());
    } else {
        lemma_scan_plain(w, i - 1);
        assert(bytes.take(i).drop_last() =~= bytes.take(i - 1));
        let c = w[i - 1];
        assert(is_plain_char(c));
        let b = (c as u32) as u8;
        assert(bytes.take(i).last() == b);
        vstd::utf8::char_u32_cast(c, c as u32);
        assert((b as char) == c);
        assert(w.take(i) =~= w.take(i - 1).push(c));
    }
}

/// The words of a plain word followed by a space: that word alone.
proof fn lemma_words_of_plain(w: Seq<char>)
    requires
        is_plain_word(w),
    ensures
        words_of(w.push(' ')) == seq![w],
{
    let l = w.push(' ');
    assert forall|i: int| 0 <= i < l.len() implies (#[trigger] l[i] as u32) < 0x80 by {
        if i < w.len() {
            assert(is_plain_char(w[i]));
        }
    }
    crate::text::lemma_encode_ascii(l);
    let bytes = l.map_values(|c: char| (c as u32) as u8);
    let wb = w.map_values(|c: char| (c as u32) as u8);
    lemma_scan_plain(w, w.len() as int);
    assert(wb.take(w.len() as int) =~= wb);
    assert(bytes.drop_last() =~= wb);
    assert(bytes.last() == 0x20u8);
    assert(w.take(w.len() as int) =~= w);
}

proof fn lemma_plain_has_no_whitespace(w: Seq<char>)
    requires
        forall|k: int| 0 <= k < w.len() ==> is_plain_char(#[trigger] w[k]),
    ensures
        last_ws(w) < 0,
        crate::text::trim_end_ws(w) == w,
    decreases w.len(),
{
    if w.len() > 0 {
        assert(is_plain_char(w[w.len() - 1]));
        lemma_plain_has_no_whitespace(w.drop_last());
        assert forall|k: int| 0 <= k < w.drop_last().len() implies is_plain_char(#[trigger] w.drop_last()[k]) by {
            assert(w.drop_last()[k] == w[k]);
        }
    }
}

/// What `complete -C script command` is for: once `script` is registered
/// for the plain word `command`, Tab after `command ` runs `script` with
/// the command, an empty word and no previous word, and its output goes at
/// the end of the line.
pub proof fn registered_script_completes_first_argument(
    table: Map<Seq<char>, Seq<char>>,
    script: Seq<char>,
    command: Seq<char>,
    r: CompletionStep,
)
    requires
        is_plain_word(command),
        complete_spec(table.insert(command, script), command.push(' '), r),
    ensures
        r matches CompletionStep::Script { start, script: s, args } && start == byte_len(command.push(' '))
            && s@ == script && string_views(args@) == seq![command, Seq::<char>::empty(), Seq::<char>::empty()],
{
    let l = command.push(' ');
    lemma_words_of_plain(command);
    assert(l.last() == ' ');
    assert(is_unicode_whitespace(' '));
    assert(last_ws(l) == l.len() - 1);
    assert(ctx_first_arg_of(l) == Some(command));
    assert(ctx_command(l) == command);
    assert(ctx_word(l) =~= Seq::<char>::empty());
    assert(ctx_prefix(l) =~= l);
    assert forall|k: int| 0 <= k < command.len() implies is_plain_char(#[trigger] command[k]) by {}
    lemma_plain_has_no_whitespace(command);
    assert(!is_unicode_whitespace(command[0]));
    assert(crate::text::trim_start_ws(l) == l);
    assert(l.drop_last() =~= command);
    assert(trim_ws(l) == command);
    assert(prev_offset(l) == 0);
    assert(ctx_previous_word(l) is None);
    assert(script_args(l) =~= seq![command, Seq::<char>::empty(), Seq::<char>::empty()]);
}

/// The word under the cursor ends the line, and where it starts is a byte
/// offset: the UTF-8 bytes of the line before the word, so that the start
/// and the word's length in bytes add up to the line's length in bytes.
pub proof fn word_start_is_byte_offset(l: Seq<char>)
    requires
        context_defined(l),
    ensures
        l == l.take(l.len() - ctx_word(l).len()) + ctx_word(l),
        ctx_word_start(l) == byte_len(l.take(l.len() - ctx_word(l).len())),
        ctx_word_start(l) + byte_len(ctx_word(l)) == byte_len(l),
{
    lemma_last_ws(l);
    let j = last_ws(l);
    if j < 0 {
        assert(l.take(0) =~= Seq::<char>::empty());
        assert(l =~= Seq::<char>::empty() + l);
    } else {
        let w = l.skip(j + 1);
        assert(l.len() - w.len() == j + 1);
        assert(l =~= l.take(j + 1) + w);
        assert(l.take(j + 1).drop_last() =~= l.take(j));
        assert(l.take(j + 1).last() == l[j]);
        crate::text::lemma_byte_len_concat(l.take(j + 1), w);
    }
}

/// Completion replaces the word under the cursor: the byte at which a
/// command or file name completion starts, plus the word's length in bytes,
/// is the line's length in bytes, and a script's output goes either at the
/// end of the line or where the word under the cursor starts.
pub proof fn completion_start_is_byte_offset(table: Map<Seq<char>, Seq<char>>, l: Seq<char>, r: CompletionStep)
    requires
        context_defined(l),
        complete_spec(table, l, r),
    ensures
        r matches CompletionStep::Commands { word_start, word } ==> word_start + byte_len(word@) == byte_len(l),
        r matches CompletionStep::Files { word_start, word } ==> word_start + byte_len(word@) == byte_len(l),
        r matches CompletionStep::Script { start, .. } ==> start == byte_len(l) || start == ctx_word_start(l),
{
    word_start_is_byte_offset(l);
}

} // verus!
