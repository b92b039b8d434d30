//! What all sources share.
use vstd::prelude::*;

verus! {

/// Why a source could not be built.
#[derive(Debug)]
pub enum BuildError {
    /// An address in the configuration could not be parsed, for the given
    /// reason.
    UriParseError { source: String },
    /// A program in the configuration could not be compiled.
    VrlCompilationError { message: String },
}

impl BuildError {
    /// The error as a message.
    pub open spec fn message(&self) -> Seq<char> {
        match *self {
            BuildError::UriParseError { source } => "URI parse error: "@ + source@,
            BuildError::VrlCompilationError { message } => "VRL compilation error: "@ + message@,
        }
    }

    /// The error as a message.
    pub fn to_text(&self) -> (text: String)
        ensures
            text@ == self.message(),
    {
        match self {
            BuildError::UriParseError { source } => {
                let mut text = "URI parse error: ".to_owned();
                text.append(source.as_str());
                text
            },
            BuildError::VrlCompilationError { message } => {
                let mut text = "VRL compilation error: ".to_owned();
                text.append(message.as_str());
                text
            },
        }
    }
}

/// The message names what went wrong, and then the reason.
pub proof fn messages_give_the_reason(error: &BuildError, text: String)
    requires
        call_ensures(BuildError::to_text, (error,), text),
    ensures
        error is UriParseError ==> text@ == "URI parse error: "@ + error->source@,
        error is VrlCompilationError ==> text@ == "VRL compilation error: "@ + error->message@,
{
}

} // verus!
