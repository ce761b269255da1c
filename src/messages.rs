use vstd::prelude::*;
use crate::types::{Error, Fault, Num};

verus! {

pub open spec fn digit_char(d: nat) -> char {
    if d == 0 {
        '0'
    } else if d == 1 {
        '1'
    } else if d == 2 {
        '2'
    } else if d == 3 {
        '3'
    } else if d == 4 {
        '4'
    } else if d == 5 {
        '5'
    } else if d == 6 {
        '6'
    } else if d == 7 {
        '7'
    } else if d == 8 {
        '8'
    } else {
        '9'
    }
}

/// The decimal digits of `n`, most significant first.
pub open spec fn decimal(n: nat) -> Seq<char>
    decreases n,
{
    if n < 10 {
        seq![digit_char(n)]
    } else {
        decimal(n / 10).push(digit_char(n % 10))
    }
}

/// The human-readable text of each fault.
pub open spec fn message_of(e: Fault) -> Seq<char> {
    match e {
        Fault::UndefinedVariable(n) => "Undefined Variable: "@ + n,
        Fault::InvalidVariableReference(n) => "Syntax Error: Variable "@ + n
            + " doesn't refer to a computed value"@,
        Fault::InvalidFunctionReference(n) => "Syntax Error: Function "@ + n
            + " doesn't refer to a lambda"@,
        Fault::InvalidLambdaArgs(n, expected, actual) => "Syntax Error: Function '"@ + n
            + "' expects only "@ + decimal(expected) + " arguments, but got "@ + decimal(actual),
        Fault::InvalidNativeFunctionArgs(n, actual) => "Syntax Error: Native function '"@ + n
            + "' can only be called with a single argument, but got "@ + decimal(actual),
        Fault::UndefinedFunction(n) => "Undefined Function: "@ + n,
        Fault::ParseError => "Unable the parse the input. Please recheck."@,
        Fault::RecursionLimit => "Evaluation nested too deeply."@,
    }
}

fn digit_text(d: usize) -> (r: &'static str)
    requires
        d < 10,
    ensures
        r@ == seq![digit_char(d as nat)],
{
    proof {
        reveal_strlit("0");
        reveal_strlit("1");
        reveal_strlit("2");
        reveal_strlit("3");
        reveal_strlit("4");
        reveal_strlit("5");
        reveal_strlit("6");
        reveal_strlit("7");
        reveal_strlit("8");
        reveal_strlit("9");
    }
    if d == 0 {
        "0"
    } else if d == 1 {
        "1"
    } else if d == 2 {
        "2"
    } else if d == 3 {
        "3"
    } else if d == 4 {
        "4"
    } else if d == 5 {
        "5"
    } else if d == 6 {
        "6"
    } else if d == 7 {
        "7"
    } else if d == 8 {
        "8"
    } else {
        "9"
    }
}

fn append_decimal(s: &mut String, n: usize)
    ensures
        final(s)@ == old(s)@ + decimal(n as nat),
    decreases n,
{
    if n >= 10 {
        append_decimal(s, n / 10);
    }
    s.append(digit_text(n % 10));
    proof {
        if n >= 10 {
            assert(final(s)@ =~= old(s)@ + decimal(n as nat));
        } else {
            assert(final(s)@ =~= old(s)@ + decimal(n as nat));
        }
    }
}

impl Error {
    /// The human-readable text of this error.
    pub fn message(&self) -> (r: String)
        ensures
            r@ == message_of(self@),
    {
        match self {
            Error::UndefinedVariable(n) => {
                let mut s = String::from_str("Undefined Variable: ");
                s.append(n.as_str());
                s
            },
            Error::InvalidVariableReference(n) => {
                let mut s = String::from_str("Syntax Error: Variable ");
                s.append(n.as_str());
                s.append(" doesn't refer to a computed value");
                s
            },
            Error::InvalidFunctionReference(n) => {
                let mut s = String::from_str("Syntax Error: Function ");
                s.append(n.as_str());
                s.append(" doesn't refer to a lambda");
                s
            },
            Error::InvalidLambdaArgs(n, expected, actual) => {
                let mut s = String::from_str("Syntax Error: Function '");
                s.append(n.as_str());
                s.append("' expects only ");
                append_decimal(&mut s, *expected);
                s.append(" arguments, but got ");
                append_decimal(&mut s, *actual);
                s
            },
            Error::InvalidNativeFunctionArgs(n, actual) => {
                let mut s = String::from_str("Syntax Error: Native function '");
                s.append(n.as_str());
                s.append("' can only be called with a single argument, but got ");
                append_decimal(&mut s, *actual);
                s
            },
            Error::UndefinedFunction(n) => {
                let mut s = String::from_str("Undefined Function: ");
                s.append(n.as_str());
                s
            },
            Error::ParseError => String::from_str("Unable the parse the input. Please recheck."),
            Error::RecursionLimit => String::from_str("Evaluation nested too deeply."),
        }
    }
}

/// The line shown for an outcome: the number as `show` writes it, or the error's message.
pub fn display<F: Fn(Num) -> String>(r: Result<Num, Error>, show: &F) -> (out: String)
    requires
        forall|v: Num| #[trigger] show.requires((v,)),
    ensures
        match r {
            Ok(v) => show.ensures((v,), out),
            Err(e) => out@ == message_of(e@),
        },
{
    match r {
        Ok(v) => show(v),
        Err(e) => e.message(),
    }
}

} // verus!
