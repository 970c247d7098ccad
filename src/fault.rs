//! The fatal errors of a run.
use vstd::prelude::*;

verus! {

/// Why a run stopped. Every runtime error of the language is fatal; `Pending`
/// is not an error but a pause for outside input (see `Interp`).
#[derive(Debug, Clone, Copy, PartialEq, Eq, Structural)]
pub enum Fault {
    /// wrong number of arguments
    Arity,
    /// an argument of the wrong kind
    Type,
    /// division by zero
    ZeroDivision,
    /// the head of a form is a group marker
    NotCallable,
    /// an index past the end of a list
    Index,
    /// a name that is neither a builtin, a function nor a variable
    UnknownIdent,
    /// a value of the right kind that is not accepted
    Value,
    /// a second definition of a function or a variable
    Redefinition,
    /// a subtraction below zero
    Underflow,
    /// outside input or output failed
    Io,
    /// the evaluation budget ran out
    Exhausted,
    /// the run waits for the reply to a request
    Pending,
}

impl Fault {
    /// The exit status of a process that stops on this fault.
    pub fn exit_code(&self) -> (r: i32)
        ensures
            *self == Fault::Arity ==> r == 1,
            *self == Fault::Type ==> r == 2,
            *self == Fault::ZeroDivision ==> r == 3,
            *self == Fault::NotCallable ==> r == 4,
            *self == Fault::Index ==> r == 5,
            *self == Fault::UnknownIdent ==> r == 6,
            *self == Fault::Value ==> r == 7,
            *self == Fault::Redefinition ==> r == 8,
            *self == Fault::Underflow ==> r == 69,
            *self == Fault::Io ==> r == 101,
            *self == Fault::Exhausted ==> r == 102,
            *self == Fault::Pending ==> r == 103,
    {
        match self {
            Fault::Arity => 1,
            Fault::Type => 2,
            Fault::ZeroDivision => 3,
            Fault::NotCallable => 4,
            Fault::Index => 5,
            Fault::UnknownIdent => 6,
            Fault::Value => 7,
            Fault::Redefinition => 8,
            Fault::Underflow => 69,
            Fault::Io => 101,
            Fault::Exhausted => 102,
            Fault::Pending => 103,
        }
    }
}

} // verus!
