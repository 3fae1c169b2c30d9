//! One application per user: its lock, and the request of a second launch to show the window.
use vstd::prelude::*;
use crate::text::chars_of;

verus! {

/// Why this process cannot be the user's one application.
#[derive(Debug)]
pub enum StartError {
    AlreadyRunning,
    Other(String),
}

/// The text of a start error.
pub open spec fn start_error_text(error: StartError) -> Seq<char> {
    match error {
        StartError::AlreadyRunning => "another Wire instance is already running"@,
        StartError::Other(message) => message@,
    }
}

impl StartError {
    /// The text of the error.
    pub fn text(&self) -> (s: String)
        ensures
            s@ == start_error_text(*self),
    {
        match self {
            StartError::AlreadyRunning => "another Wire instance is already running".to_owned(),
            StartError::Other(message) => message.clone(),
        }
    }

    /// The error for a lock that could not be taken. Another instance holds it where the call
    /// would block, or where the system reports a sharing or a lock violation.
    pub fn from_lock(would_block: bool, os_code: Option<i32>, detail: &str) -> (e: StartError)
        ensures
            (would_block || os_code == Some(32i32) || os_code == Some(33i32)) <==> e
                is AlreadyRunning,
            !(e is AlreadyRunning) ==> start_error_text(e) == "lock Wire instance: "@ + detail@,
    {
        let violation = match os_code {
            Some(code) => code == 32 || code == 33,
            None => false,
        };
        if would_block || violation {
            StartError::AlreadyRunning
        } else {
            let mut s: String = "lock Wire instance: ".to_owned();
            s.append(detail);
            StartError::Other(s)
        }
    }
}

/// What became of taking an activation request away.
#[derive(Clone, Copy, Debug, PartialEq, Eq, Structural)]
pub enum Removal {
    Removed,
    Missing,
    Failed,
}

/// The path of a file in a directory. The empty path is the current directory, and a separator
/// that is there already is not written again.
pub open spec fn joined_path(directory: Seq<char>, file: Seq<char>) -> Seq<char> {
    if directory.len() == 0 || directory.last() == '/' {
        directory + file
    } else {
        directory + "/"@ + file
    }
}

/// A window's connection to the service.
#[derive(Debug)]
pub struct ServiceClient {
    activation_path: String,
}

impl ServiceClient {
    pub closed spec fn path(self) -> Seq<char> {
        self.activation_path@
    }

    /// A client for the application whose state is in `config_dir`.
    pub fn new(config_dir: &str) -> (c: ServiceClient)
        ensures
            c.path() == joined_path(config_dir@, "activation.request"@),
    {
        let chars = chars_of(config_dir);
        let mut s: String = config_dir.to_owned();
        if chars.len() > 0 && chars[chars.len() - 1] != '/' {
            s.append("/");
        }
        s.append("activation.request");
        ServiceClient { activation_path: s }
    }

    /// Where a second launch leaves its request.
    pub fn activation_path(&self) -> (s: String)
        ensures
            s@ == self.path(),
    {
        self.activation_path.clone()
    }

    /// Whether a request was there: only one that could be taken away counts, so that each shows
    /// the window once.
    pub fn take_activation_request(&self, removal: Removal) -> (r: bool)
        ensures
            r == (removal == Removal::Removed),
    {
        match removal {
            Removal::Removed => true,
            Removal::Missing => false,
            Removal::Failed => false,
        }
    }
}

} // verus!
