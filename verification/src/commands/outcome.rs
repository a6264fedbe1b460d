use vstd::prelude::*;

verus! {

/// What running one statement produced.
pub enum Outcome {
    /// The shell is asked to stop with the given exit code.
    Quit(i32),
    /// Text for the standard output and standard error streams.
    Output { stdout: String, stderr: String },
    /// Nothing to report.
    Nothing,
}

/// The exit status that an outcome stands for.
pub open spec fn status_of(o: Outcome) -> i32 {
    match o {
        Outcome::Quit(n) => n,
        _ => 0,
    }
}

/// `o` reports exactly `out` on the standard output and `err` on the standard error.
pub open spec fn output_is(o: Outcome, out: Seq<char>, err: Seq<char>) -> bool {
    o matches Outcome::Output { stdout, stderr } && stdout@ == out && stderr@ == err
}

impl Outcome {
    /// The exit status of this outcome: the code of a `Quit`, otherwise 0.
    pub fn status(&self) -> (r: i32)
        ensures
            r == status_of(*self),
    {
        match self {
            Outcome::Quit(n) => *n,
            _ => 0,
        }
    }

    /// An outcome that only reports an error message.
    pub fn from_err(stderr: String) -> (r: Self)
        ensures
            output_is(r, Seq::empty(), stderr@),
    {
        Outcome::Output { stdout: String::new(), stderr }
    }
}

} // verus!
