//! Error values shared by every stage of the interpreter.
use vstd::prelude::*;

verus! {

/// An error code paired with a diagnostic message.
pub struct CreateError {
    pub code: usize,
    pub message: String,
}

/// The model of an error.
pub struct ErrorView {
    pub code: usize,
    pub message: Seq<char>,
}

impl View for CreateError {
    type V = ErrorView;

    open spec fn view(&self) -> ErrorView {
        ErrorView { code: self.code, message: self.message@ }
    }
}

/// Outcome of an operation that yields no value.
pub enum CreateResult {
    Success(),
    Failure(CreateError),
}

/// Internal failure such as an I/O error.
pub const INTERNAL: usize = 1;

/// Malformed source text.
pub const FORMAT: usize = 2;

/// Syntax or structural error found while building or evaluating.
pub const SYNTAX: usize = 3;

/// A read from the operand stack found no scalar at the index.
pub const BUFFER_INDEX: usize = 4;

/// An instruction was fired with an empty slot, or a condition was missing.
pub const UNFILLED: usize = 5;

/// An identifier is bound nowhere in the scope chain.
pub const UNKNOWN_NAME: usize = 6;

/// A value of the wrong kind was fed to an instruction.
pub const INCOMPATIBLE: usize = 7;

/// A control-flow condition was not a scalar.
pub const CONDITION: usize = 9;

/// An argument does not have the type its parameter declares.
pub const ARGUMENT: usize = 10;

/// The break signal; an error when no loop encloses it.
pub const BREAK: usize = 11;

/// The return signal; an error when no function body encloses it.
pub const RETURN: usize = 12;

/// An identifier path with no segment.
pub const PATH: usize = 13;

/// The text shown to a user for an error code.
pub open spec fn spec_user_message(code: usize) -> Seq<char> {
    if code == 0 {
        "Huh, that's a toughie. You've got an error with no error!"@
    } else if code == 1 {
        "There was an internal compiler error; run with -d to see a more detailed report."@
    } else if code == 2 {
        "There was improper formatting in the source code."@
    } else if code == 3 {
        "There was a syntax error in the source code."@
    } else if code == 4 {
        "We were not able to access the buffer at a specified index."@
    } else if code == 5 {
        "There was an unfilled value in an instruction."@
    } else if code == 6 {
        "There was an uninstantiated named buffer."@
    } else if code == 7 {
        "Tried to write incompatible type."@
    } else if code == 8 {
        "Tried to print a floating point char."@
    } else if code == 9 {
        "Improper condition for control flow statement."@
    } else if code == 10 {
        "Mistyped argument for function."@
    } else if code == 11 {
        "Unexpected break statement."@
    } else if code == 12 {
        "Unexpected return statement."@
    } else if code == usize::MAX {
        "Something went wrong."@
    } else {
        "Huh, we weren't able to diagnose the issue, but there was an error somewhere in here."@
    }
}

impl CreateError {
    /// Builds an error from its code and diagnostic text.
    pub fn new(code: usize, message: &str) -> (out: CreateError)
        ensures
            out.code == code,
            out.message@ == message@,
    {
        CreateError { code, message: message.to_owned() }
    }

    /// The message a user sees for this error, chosen by its code alone.
    pub fn user_message(&self) -> (out: &'static str)
        ensures
            out@ == spec_user_message(self.code),
    {
        let code = self.code;
        if code == 0 {
            "Huh, that's a toughie. You've got an error with no error!"
        } else if code == 1 {
            "There was an internal compiler error; run with -d to see a more detailed report."
        } else if code == 2 {
            "There was improper formatting in the source code."
        } else if code == 3 {
            "There was a syntax error in the source code."
        } else if code == 4 {
            "We were not able to access the buffer at a specified index."
        } else if code == 5 {
            "There was an unfilled value in an instruction."
        } else if code == 6 {
            "There was an uninstantiated named buffer."
        } else if code == 7 {
            "Tried to write incompatible type."
        } else if code == 8 {
            "Tried to print a floating point char."
        } else if code == 9 {
            "Improper condition for control flow statement."
        } else if code == 10 {
            "Mistyped argument for function."
        } else if code == 11 {
            "Unexpected break statement."
        } else if code == 12 {
            "Unexpected return statement."
        } else if code == usize::MAX {
            "Something went wrong."
        } else {
            "Huh, we weren't able to diagnose the issue, but there was an error somewhere in here."
        }
    }

    /// A copy of this error.
    pub fn duplicate(&self) -> (out: CreateError)
        ensures
            out == *self,
    {
        CreateError { code: self.code, message: self.message.clone() }
    }
}

impl CreateResult {
    /// Whether the operation failed.
    pub fn is_err(&self) -> (out: bool)
        ensures
            out == (*self is Failure),
    {
        match self {
            CreateResult::Success() => false,
            CreateResult::Failure(_) => true,
        }
    }
}

} // verus!
