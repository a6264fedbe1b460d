//! A parsed statement: the program, its arguments and its redirections.
use vstd::prelude::*;
use crate::commands::parser::{extract, extract_redirects, parse_words, redirect_views, views, words_of, Redirect};

verus! {

/// One command line after parsing.
pub struct Statement {
    pub program: String,
    pub args: Vec<String>,
    pub redirects: Vec<Redirect>,
}

/// The statement of a line as plain values: the words that are not part of
/// a redirection, and the redirections.
pub open spec fn statement_parts(line: &str) -> (Seq<Seq<char>>, Seq<crate::commands::parser::RedirectSpec>) {
    extract(words_of(line@))
}

impl Statement {
    /// Parses a command line. The first word that is not part of a
    /// redirection is the program, the following ones are its arguments.
    /// There is no statement when every word belongs to a redirection, or
    /// when the line holds no word.
    pub fn parse(input: &str) -> (r: Option<Self>)
        ensures
            r is None <==> statement_parts(input).0.len() == 0,
            r matches Some(s) ==> {
                &&& s.program@ == statement_parts(input).0[0]
                &&& views(s.args@) == statement_parts(input).0.skip(1)
                &&& redirect_views(s.redirects@) == statement_parts(input).1
            },
    {
        let words = parse_words(input);
        let (mut words, redirects) = extract_redirects(&words);
        if words.len() == 0 {
            return None;
        }
        let ghost all = views(words@);
        let program = words.remove(0);
        assert(views(words@) =~= all.skip(1));
        Some(Statement { program, args: words, redirects })
    }
}

} // verus!
