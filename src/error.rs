use vstd::prelude::*;
use vstd::string::StringExecFns;

use crate::text::{decimal, push_decimal};

verus! {

/// Errors surfaced by the virtual machine.
#[derive(Debug)]
pub enum VmError {
    /// A generic runtime violation, with its cause.
    RuntimeError(String),
    /// A jump names a label that the code does not define.
    LabelNotFound(usize),
    /// `LoadGlobal` names a global that was never stored.
    GlobalNotFound(usize),
    /// An operand of the wrong kind: what was expected, what was found.
    Expected(String, String),
    /// Arithmetic on an unsupported pair of values.
    Arithmetic,
    /// The target of a call is not a callable object.
    NotCallable,
    /// A class has no field of this name.
    FieldNotFound(String),
    /// The call stack would exceed its limit.
    StackOverflow,
}

/// The message of an error.
pub open spec fn message(e: VmError) -> Seq<char> {
    match e {
        VmError::RuntimeError(cause) => "Runtime Error: `"@ + cause@ + "`"@,
        VmError::LabelNotFound(id) => "Label `"@ + decimal(id as nat) + "` not found"@,
        VmError::GlobalNotFound(id) => "Global `"@ + decimal(id as nat) + "` not found"@,
        VmError::Expected(expected, found) => "Expected `"@ + expected@ + "` found `"@ + found@ + "`"@,
        VmError::Arithmetic => "Arithmetic error"@,
        VmError::NotCallable => "Value is not callable"@,
        VmError::FieldNotFound(name) => "Field `"@ + name@ + "` not found"@,
        VmError::StackOverflow => "Stack overflow"@,
    }
}

impl VmError {
    /// The message of the error, for the host to show.
    pub fn as_str(&self) -> (r: String)
        ensures
            r@ == message(*self),
    {
        let mut s = String::new();
        match self {
            VmError::RuntimeError(cause) => {
                s.append("Runtime Error: `");
                s.append(cause.as_str());
                s.append("`");
            },
            VmError::LabelNotFound(id) => {
                s.append("Label `");
                push_decimal(&mut s, *id as u64);
                s.append("` not found");
            },
            VmError::GlobalNotFound(id) => {
                s.append("Global `");
                push_decimal(&mut s, *id as u64);
                s.append("` not found");
            },
            VmError::Expected(expected, found) => {
                s.append("Expected `");
                s.append(expected.as_str());
                s.append("` found `");
                s.append(found.as_str());
                s.append("`");
            },
            VmError::Arithmetic => s.append("Arithmetic error"),
            VmError::NotCallable => s.append("Value is not callable"),
            VmError::FieldNotFound(name) => {
                s.append("Field `");
                s.append(name.as_str());
                s.append("` not found");
            },
            VmError::StackOverflow => s.append("Stack overflow"),
        }
        assert(s@ =~= message(*self));
        s
    }
}

} // verus!
