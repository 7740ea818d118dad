//! The library's errors and their messages.
use vstd::prelude::*;

verus! {

/// What can go wrong. The payload of `Io`, `Settings` and `Other` is the
/// message of the underlying error.
pub enum Error {
    Io(String),
    Settings(String),
    Audio(String),
    Sidecar(String),
    Detection(String),
    AlreadyRecording,
    NotRecording,
    PermissionRequired(&'static str),
    Other(String),
}

pub open spec fn error_message(e: Error) -> Seq<char> {
    match e {
        Error::Io(m) => "io: "@ + m@,
        Error::Settings(m) => "settings: "@ + m@,
        Error::Audio(m) => "audio: "@ + m@,
        Error::Sidecar(m) => "sidecar: "@ + m@,
        Error::Detection(m) => "detection: "@ + m@,
        Error::AlreadyRecording => "recording is already in progress"@,
        Error::NotRecording => "recording is not in progress"@,
        Error::PermissionRequired(m) => "permission required: "@ + m@,
        Error::Other(m) => m@,
    }
}

impl Error {
    /// The text shown for the error.
    pub fn message(&self) -> (r: String)
        ensures
            r@ == error_message(*self),
    {
        let (prefix, body): (&str, &str) = match self {
            Error::Io(m) => ("io: ", m.as_str()),
            Error::Settings(m) => ("settings: ", m.as_str()),
            Error::Audio(m) => ("audio: ", m.as_str()),
            Error::Sidecar(m) => ("sidecar: ", m.as_str()),
            Error::Detection(m) => ("detection: ", m.as_str()),
            Error::AlreadyRecording => ("recording is already in progress", ""),
            Error::NotRecording => ("recording is not in progress", ""),
            Error::PermissionRequired(m) => ("permission required: ", *m),
            Error::Other(m) => ("", m.as_str()),
        };
        let mut s = String::from_str(prefix);
        s.append(body);
        proof {
            reveal_strlit("");
            match self {
                Error::AlreadyRecording => {
                    assert(s@ =~= "recording is already in progress"@);
                },
                Error::NotRecording => {
                    assert(s@ =~= "recording is not in progress"@);
                },
                Error::Other(m) => {
                    assert(s@ =~= m@);
                },
                _ => {},
            }
        }
        s
    }
}

} // verus!
