//! What can go wrong.
use crate::label::{append_digits, digits, law_digits_value, value_of};
use vstd::prelude::*;
use vstd::string::StringExecFns;

verus! {

/// Why a program could not be compiled or prepared to run.
#[derive(Clone, Copy, Debug, PartialEq, Eq)]
pub enum Error {
    /// The program calls a helper function that has not been declared.
    UnknownHelper { id: u32 },
    /// LLVM cannot run code on this machine, or runs this module already.
    NoEngine,
    /// LLVM does not read the module back that it wrote.
    Rejected,
}

/// The text of an error.
pub open spec fn message_of(error: Error) -> Seq<char> {
    match error {
        Error::UnknownHelper { id } => {
            "[LLVM] Error: unknown helper function (id: 0x"@ + digits(id as nat, 16) + ")"@
        },
        Error::NoEngine => "[LLVM] Error: no execution engine"@,
        Error::Rejected => "[LLVM] Error: invalid bitcode"@,
    }
}

/// The text on an unknown helper function tells its number: between a fixed start and a
/// closing bracket stand digits in base sixteen that read as the number.
pub proof fn law_helper_message(id: u32)
    ensures
        ({
            let start = "[LLVM] Error: unknown helper function (id: 0x"@;
            let text = message_of(Error::UnknownHelper { id });
            let n = start.len() as int;
            &&& n < text.len() - 1
            &&& text.take(n) == start
            &&& value_of(text.subrange(n, text.len() - 1), 16) == id
            &&& text.skip(text.len() - 1) == ")"@
        }),
{
    let start = "[LLVM] Error: unknown helper function (id: 0x"@;
    let text = message_of(Error::UnknownHelper { id });
    let n = start.len() as int;
    reveal_strlit(")");
    law_digits_value(id as nat, 16);
    assert(text.take(n) =~= start);
    assert(text.subrange(n, text.len() - 1) =~= digits(id as nat, 16));
    assert(text.skip(text.len() - 1) =~= ")"@);
}

impl Error {
    /// The text of the error. The number of a helper function is in base
    /// sixteen.
    pub fn message(&self) -> (text: String)
        ensures
            text@ == message_of(*self),
    {
        match self {
            Error::UnknownHelper { id } => {
                let mut text = String::from_str("[LLVM] Error: unknown helper function (id: 0x");
                append_digits(&mut text, *id as u64, 16);
                text.append(")");
                text
            },
            Error::NoEngine => String::from_str("[LLVM] Error: no execution engine"),
            Error::Rejected => String::from_str("[LLVM] Error: invalid bitcode"),
        }
    }
}

} // verus!
