//! The errors of reading, writing and commands.
use vstd::prelude::*;
use crate::cli::Target;

verus! {

/// Why a document could not be read.
#[derive(Debug, PartialEq)]
pub enum ReadError {
    /// An element that does not belong in the frontmatter
    InvalidElement(String),
    /// The source of the text failed, with its message
    Io(String),
    Str(String),
    /// An element of the body that documents here do not hold, or a stream
    /// that ends inside an element
    Unhandled(String),
}

/// Why a document could not be written.
#[derive(Debug, PartialEq)]
pub enum WriteError {
    /// The sink failed, with its message
    Io(String),
}

#[derive(Debug, PartialEq)]
pub enum CommandError {
    /// No target was provided
    NoTarget,
    /// Target provided but doesn't exist in filesystem
    TargetMissing(Target),
    /// Generic error
    Str(String),
}

fn joined(a: &str, b: &str) -> (r: String)
    ensures
        r@ == a@ + b@,
{
    let mut s = String::from_str(a);
    s.append(b);
    s
}

impl ReadError {
    /// The message of the error.
    pub fn message(&self) -> (r: String)
        ensures
            r@ == match self {
                ReadError::InvalidElement(s) => s@,
                ReadError::Io(s) => s@,
                ReadError::Str(s) => s@,
                ReadError::Unhandled(s) => s@,
            },
    {
        match self {
            ReadError::InvalidElement(s) => s.clone(),
            ReadError::Io(s) => s.clone(),
            ReadError::Str(s) => s.clone(),
            ReadError::Unhandled(s) => s.clone(),
        }
    }
}

impl WriteError {
    /// The message of the error.
    pub fn message(&self) -> (r: String)
        ensures
            r@ == match self {
                WriteError::Io(s) => s@,
            },
    {
        match self {
            WriteError::Io(s) => s.clone(),
        }
    }
}

impl CommandError {
    /// The message shown for the error.
    pub fn message(&self) -> (r: String)
        ensures
            r@ == match self {
                CommandError::NoTarget => "Please provide a target"@,
                CommandError::TargetMissing(t) => if t.inner@.len() == 0 {
                    "Couldn't find local file"@
                } else {
                    "Couldn't find target: '"@ + t.inner@ + "'"@
                },
                CommandError::Str(s) => s@,
            },
    {
        match self {
            CommandError::NoTarget => String::from_str("Please provide a target"),
            CommandError::TargetMissing(t) => {
                if t.is_empty() {
                    String::from_str("Couldn't find local file")
                } else {
                    let mut s = String::from_str("Couldn't find target: '");
                    s.append(t.inner.as_str());
                    s.append("'");
                    s
                }
            },
            CommandError::Str(s) => s.clone(),
        }
    }

    /// A failure of the source or sink of a file, with its description.
    pub fn from_io(description: &str) -> (r: CommandError)
        ensures
            r matches CommandError::Str(m) && m@ == "An unhandled io error was encountered: "@
                + description@,
    {
        CommandError::Str(joined("An unhandled io error was encountered: ", description))
    }

    /// The command error that a reading error becomes.
    pub fn from_read(err: ReadError) -> (r: CommandError)
        ensures
            match err {
                ReadError::Io(s) => r matches CommandError::Str(m) && m@
                    == "An unhandled io error was encountered: "@ + s@,
                ReadError::InvalidElement(s) => r matches CommandError::Str(m) && m@
                    == "Encountered invalid element when reading nodo: "@ + s@,
                ReadError::Str(s) => r matches CommandError::Str(m) && m@ == s@,
                ReadError::Unhandled(s) => r matches CommandError::Str(m) && m@
                    == "Encountered an unhandled element when reading nodo: "@ + s@,
            },
    {
        match err {
            ReadError::Io(s) => CommandError::from_io(s.as_str()),
            ReadError::InvalidElement(s) => CommandError::Str(
                joined("Encountered invalid element when reading nodo: ", s.as_str()),
            ),
            ReadError::Str(s) => CommandError::Str(s),
            ReadError::Unhandled(s) => CommandError::Str(
                joined("Encountered an unhandled element when reading nodo: ", s.as_str()),
            ),
        }
    }

    /// The command error that a writing error becomes.
    pub fn from_write(err: WriteError) -> (r: CommandError)
        ensures
            match err {
                WriteError::Io(s) => r matches CommandError::Str(m) && m@
                    == "An unhandled io error was encountered: "@ + s@,
            },
    {
        match err {
            WriteError::Io(s) => CommandError::from_io(s.as_str()),
        }
    }
}

} // verus!
