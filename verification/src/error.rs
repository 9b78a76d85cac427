//! The error of a split, and its two renderings.

use vstd::prelude::*;
use vstd::string::StringExecFns;

verus! {

/// The character that stands for the digit `d`.
pub open spec fn digit(d: nat) -> char
    recommends
        d < 10,
{
    if d == 0 {
        '0'
    } else if d == 1 {
        '1'
    } else if d == 2 {
        '2'
    } else if d == 3 {
        '3'
    } else if d == 4 {
        '4'
    } else if d == 5 {
        '5'
    } else if d == 6 {
        '6'
    } else if d == 7 {
        '7'
    } else if d == 8 {
        '8'
    } else {
        '9'
    }
}

/// `n` written in decimal digits, without leading zeros.
pub open spec fn decimal(n: nat) -> Seq<char>
    decreases n,
{
    if n < 10 {
        seq![digit(n)]
    } else {
        decimal(n / 10) + seq![digit(n % 10)]
    }
}

/// The diagnostic rendering of an error with the text `message`, for a
/// reader of logs: where it arose, then the message.
pub open spec fn diagnostic(file: Seq<char>, line: nat, message: Seq<char>) -> Seq<char> {
    "{ file: "@ + file + ", line: "@ + decimal(line) + ", error: "@ + message + "}"@
}

fn digit_str(d: u32) -> (s: &'static str)
    requires
        d < 10,
    ensures
        s@ == seq![digit(d as nat)],
{
    proof {
        reveal_strlit("0");
        reveal_strlit("1");
        reveal_strlit("2");
        reveal_strlit("3");
        reveal_strlit("4");
        reveal_strlit("5");
        reveal_strlit("6");
        reveal_strlit("7");
        reveal_strlit("8");
        reveal_strlit("9");
    }
    let s = if d == 0 {
        "0"
    } else if d == 1 {
        "1"
    } else if d == 2 {
        "2"
    } else if d == 3 {
        "3"
    } else if d == 4 {
        "4"
    } else if d == 5 {
        "5"
    } else if d == 6 {
        "6"
    } else if d == 7 {
        "7"
    } else if d == 8 {
        "8"
    } else {
        "9"
    };
    assert(s@ =~= seq![digit(d as nat)]);
    s
}

fn decimal_string(n: u32) -> (out: String)
    ensures
        out@ == decimal(n as nat),
    decreases n,
{
    if n < 10 {
        String::from_str(digit_str(n))
    } else {
        decimal_string(n / 10).concat(digit_str(n % 10))
    }
}

/// What went wrong in a split, in words.
#[derive(Debug)]
pub struct SplitError(
    /// The message that is shown to the user.
    pub String,
);

impl SplitError {
    /// The error for a split that gave no segment.
    pub fn failed() -> (error: SplitError)
        ensures
            error.0@ == "Failed to split"@,
    {
        SplitError(String::from_str("Failed to split"))
    }

    /// The rendering for users: the message as it is.
    pub fn to_string(&self) -> (out: String)
        ensures
            out@ == self.0@,
    {
        self.0.clone()
    }

    /// The rendering for developers: the file and the line at which the
    /// error arose, then the message.
    pub fn to_debug_string(&self, file: &str, line: u32) -> (out: String)
        ensures
            out@ == diagnostic(file@, line as nat, self.0@),
    {
        let number = decimal_string(line);
        let mut out = String::from_str("{ file: ");
        out.append(file);
        out.append(", line: ");
        out.append(number.as_str());
        out.append(", error: ");
        out.append(self.0.as_str());
        out.append("}");
        out
    }
}

} // verus!
