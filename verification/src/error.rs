//! Errors of loading a module and calling its exported functions, with the
//! messages they are shown with.

use vstd::prelude::*;
use vstd::string::StringExecFns;

use crate::text::push_char;

verus! {

/// Why loading a module or calling one of its functions failed.
#[derive(Debug, Clone, PartialEq, Eq)]
pub enum Error {
    /// The module bytes are text but not valid WAT; the parser's message.
    InvalidWatText(String),
    /// No exported function has this name.
    ExportedFnNotFound(String),
    /// The function takes another number of arguments: its name, how many
    /// it expects and how many it has.
    IncorrectNumOfArgs(String, u32, u32),
}

/// The character of the decimal digit `d`.
pub open spec fn digit_char(d: nat) -> char {
    if d == 0 {
        '0'
    } else if d == 1 {
        '1'
    } else if d == 2 {
        '2'
    } else if d == 3 {
        '3'
    } else if d == 4 {
        '4'
    } else if d == 5 {
        '5'
    } else if d == 6 {
        '6'
    } else if d == 7 {
        '7'
    } else if d == 8 {
        '8'
    } else {
        '9'
    }
}

/// `n` written in decimal, without leading zeros.
pub open spec fn decimal(n: nat) -> Seq<char>
    decreases n,
{
    if n < 10 {
        seq![digit_char(n)]
    } else {
        decimal(n / 10).push(digit_char(n % 10))
    }
}

/// Appends `n` in decimal to `out`.
fn push_decimal(n: u32, out: &mut String)
    ensures
        final(out)@ == old(out)@ + decimal(n as nat),
    decreases n,
{
    if n >= 10 {
        push_decimal(n / 10, out);
    }
    let d: u32 = n % 10;
    let c = if d == 0 {
        '0'
    } else if d == 1 {
        '1'
    } else if d == 2 {
        '2'
    } else if d == 3 {
        '3'
    } else if d == 4 {
        '4'
    } else if d == 5 {
        '5'
    } else if d == 6 {
        '6'
    } else if d == 7 {
        '7'
    } else if d == 8 {
        '8'
    } else {
        '9'
    };
    push_char(out, c);
}

impl Error {
    /// The message the error is shown with.
    pub open spec fn spec_message(&self) -> Seq<char> {
        match self {
            Error::InvalidWatText(err) => "Module bytes are valid text, but parsing it in wat format gave error: "@
                + err@,
            Error::ExportedFnNotFound(name) => "Exported fn `"@ + name@ + "` not found in the module"@,
            Error::IncorrectNumOfArgs(name, expected, actual) => "Expected `"@ + name@ + "` to have "@
                + decimal(*expected as nat) + " arguments, but it has "@ + decimal(*actual as nat)
                + " instead"@,
        }
    }

    /// The message the error is shown with.
    pub fn message(&self) -> (r: String)
        ensures
            r@ == self.spec_message(),
    {
        match self {
            Error::InvalidWatText(err) => {
                let mut out = String::from_str(
                    "Module bytes are valid text, but parsing it in wat format gave error: ",
                );
                out.append(err.as_str());
                out
            },
            Error::ExportedFnNotFound(name) => {
                let mut out = String::from_str("Exported fn `");
                out.append(name.as_str());
                out.append("` not found in the module");
                out
            },
            Error::IncorrectNumOfArgs(name, expected, actual) => {
                let mut out = String::from_str("Expected `");
                out.append(name.as_str());
                out.append("` to have ");
                push_decimal(*expected, &mut out);
                out.append(" arguments, but it has ");
                push_decimal(*actual, &mut out);
                out.append(" instead");
                out
            },
        }
    }
}

} // verus!
