//! The error value that the frame helpers hand back.

use vstd::prelude::*;
use vstd::string::*;
use crate::text::{dec_string, push_dec, push_str};

verus! {

/// An error with a numeric code and a message.
#[derive(Debug)]
pub struct CustomError {
    pub code: u32,
    pub message: String,
}

impl CustomError {
    /// An error with the given code and message.
    pub fn new(code: u32, message: String) -> (r: Self)
        ensures
            r.code == code,
            r.message == message,
    {
        CustomError { code, message }
    }

    /// The text `[Error Code: <code>] <message>`.
    pub open spec fn rendered(&self) -> Seq<char> {
        "[Error Code: "@ + dec_string(self.code as nat) + "] "@ + self.message@
    }

    /// The error as a line of text.
    pub fn to_text(&self) -> (r: String)
        ensures
            r@ == self.rendered(),
    {
        let mut out = String::new();
        push_str(&mut out, "[Error Code: ");
        push_dec(&mut out, self.code as u64);
        push_str(&mut out, "] ");
        push_str(&mut out, self.message.as_str());
        assert(out@ =~= self.rendered());
        out
    }
}

} // verus!
