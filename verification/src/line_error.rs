//! A raw stream failure annotated with the 1-based line number at which line
//! processing observed it, and its two renderings.

use vstd::prelude::*;
use vstd::string::StringExecFns;
use crate::stream_error::StreamError;

verus! {

/// The decimal digit character for a value below ten.
pub open spec fn decimal_digit(d: nat) -> char
    recommends
        d < 10,
{
    if d == 0 {
        '0'
    } else if d == 1 {
        '1'
    } else if d == 2 {
        '2'
    } else if d == 3 {
        '3'
    } else if d == 4 {
        '4'
    } else if d == 5 {
        '5'
    } else if d == 6 {
        '6'
    } else if d == 7 {
        '7'
    } else if d == 8 {
        '8'
    } else {
        '9'
    }
}

/// The decimal rendering of a number, most significant digit first, with no
/// leading zero except for the number zero itself.
pub open spec fn decimal_text(n: nat) -> Seq<char>
    decreases n,
{
    if n < 10 {
        seq![decimal_digit(n)]
    } else {
        decimal_text(n / 10) + seq![decimal_digit(n % 10)]
    }
}

fn digit_str(d: usize) -> (r: &'static str)
    requires
        d < 10,
    ensures
        r@ == seq![decimal_digit(d as nat)],
{
    proof {
        reveal_strlit("0");
        reveal_strlit("1");
        reveal_strlit("2");
        reveal_strlit("3");
        reveal_strlit("4");
        reveal_strlit("5");
        reveal_strlit("6");
        reveal_strlit("7");
        reveal_strlit("8");
        reveal_strlit("9");
    }
    let r: &'static str = if d == 0 {
        "0"
    } else if d == 1 {
        "1"
    } else if d == 2 {
        "2"
    } else if d == 3 {
        "3"
    } else if d == 4 {
        "4"
    } else if d == 5 {
        "5"
    } else if d == 6 {
        "6"
    } else if d == 7 {
        "7"
    } else if d == 8 {
        "8"
    } else {
        "9"
    };
    proof {
        assert(r@ =~= seq![decimal_digit(d as nat)]);
    }
    r
}

/// Renders a number in decimal.
pub fn decimal_string(n: usize) -> (r: String)
    ensures
        r@ == decimal_text(n as nat),
    decreases n,
{
    if n < 10 {
        String::from_str(digit_str(n))
    } else {
        assert(n / 10 < n);
        let mut s = decimal_string(n / 10);
        s.append(digit_str(n % 10));
        s
    }
}

/// The user-facing rendering of a line error.
pub open spec fn display_text(line: Option<usize>, cause: Seq<char>) -> Seq<char> {
    match line {
        Some(n) => "Error in line "@ + decimal_text(n as nat) + ": "@ + cause,
        None => "Error: "@ + cause,
    }
}

/// The developer-facing rendering of a line error.
pub open spec fn debug_text(line: Option<usize>, cause: Seq<char>) -> Seq<char> {
    match line {
        Some(n) => "Line "@ + decimal_text(n as nat) + " "@ + cause,
        None => cause,
    }
}

/// A raw stream failure paired with the 1-based number of the line during
/// which it was detected, or with no number when it was detected outside
/// line processing. Constructed once, never mutated.
pub struct LineError {
    line: Option<usize>,
    cause: StreamError,
}

impl LineError {
    /// The 1-based line number, if the failure was observed at a line.
    pub closed spec fn spec_line(&self) -> Option<usize> {
        self.line
    }

    /// The underlying raw failure.
    pub closed spec fn spec_cause(&self) -> StreamError {
        self.cause
    }

    pub fn new(line: Option<usize>, cause: StreamError) -> (r: Self)
        ensures
            r.spec_line() == line,
            r.spec_cause() == cause,
    {
        LineError { line, cause }
    }

    pub fn line(&self) -> (r: Option<usize>)
        ensures
            r == self.spec_line(),
    {
        self.line
    }

    /// The wrapped raw failure, for any caller that walks the cause chain.
    pub fn cause(&self) -> (r: &StreamError)
        ensures
            *r == self.spec_cause(),
    {
        &self.cause
    }

    /// User-facing rendering: `Error in line {n}: {cause}` when a line number
    /// is present, else `Error: {cause}`.
    pub fn display_message(&self) -> (r: String)
        ensures
            r@ == display_text(self.spec_line(), self.spec_cause().spec_message()),
    {
        match self.line {
            Some(n) => {
                let mut s = String::from_str("Error in line ");
                let digits = decimal_string(n);
                s.append(digits.as_str());
                s.append(": ");
                s.append(self.cause.message());
                s
            },
            None => {
                let mut s = String::from_str("Error: ");
                s.append(self.cause.message());
                s
            },
        }
    }

    /// Developer-facing rendering: `Line {n} {cause}` when a line number is
    /// present, else the cause's own message.
    pub fn debug_message(&self) -> (r: String)
        ensures
            r@ == debug_text(self.spec_line(), self.spec_cause().spec_message()),
    {
        match self.line {
            Some(n) => {
                let mut s = String::from_str("Line ");
                let digits = decimal_string(n);
                s.append(digits.as_str());
                s.append(" ");
                s.append(self.cause.message());
                s
            },
            None => String::from_str(self.cause.message()),
        }
    }
}

/// Closes over an optional line number: the returned function wraps any raw
/// stream failure into a `LineError` carrying that number, so that a caller
/// processing a given line can annotate every failure uniformly.
pub fn error_line(lineno: Option<usize>) -> (f: impl Fn(StreamError) -> LineError)
    ensures
        forall|e: StreamError| #[trigger] call_requires(f, (e,)),
        forall|e: StreamError, r: LineError|
            #[trigger] call_ensures(f, (e,), r) ==> r.spec_line() == lineno && r.spec_cause() == e,
{
    move |e: StreamError| -> (r: LineError)
        ensures
            r.spec_line() == lineno && r.spec_cause() == e,
        {
            LineError { line: lineno, cause: e }
        }
}

} // verus!
