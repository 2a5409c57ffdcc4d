use vstd::prelude::*;
use vstd::string::StringExecFns;

verus! {

/// Why one evaluation failed, as reported by the shell session: the command
/// would not parse, evaluation itself failed, input/output failed while the
/// session's environment was set up, the standard library would not load, or
/// an environment variable was not valid UTF-8. Each variant but the last
/// carries the collaborator's message text.
#[derive(Debug, PartialEq, Eq)]
pub enum Error {
    Parse(String),
    Shell(String),
    Io(String),
    LoadingStd(String),
    InvalidEnvVar,
}

impl Error {
    /// The text that [`Error::message`] renders for this error.
    pub open spec fn message_rep(self) -> Seq<char> {
        match self {
            Error::Parse(d) => "failed to parse command: "@ + d@,
            Error::Shell(d) => "failed to evaluate command: "@ + d@,
            Error::Io(d) => "I/O error: "@ + d@,
            Error::LoadingStd(d) => "couldn't load std: "@ + d@,
            Error::InvalidEnvVar => "environment variable is not valid UTF-8"@,
        }
    }

    /// A displayable message: a short description of what failed, followed by
    /// the collaborator's own text.
    pub fn message(&self) -> (m: String)
        ensures
            m@ == self.message_rep(),
    {
        match self {
            Error::Parse(d) => "failed to parse command: ".to_owned().concat(d.as_str()),
            Error::Shell(d) => "failed to evaluate command: ".to_owned().concat(d.as_str()),
            Error::Io(d) => "I/O error: ".to_owned().concat(d.as_str()),
            Error::LoadingStd(d) => "couldn't load std: ".to_owned().concat(d.as_str()),
            Error::InvalidEnvVar => "environment variable is not valid UTF-8".to_owned(),
        }
    }
}

} // verus!
