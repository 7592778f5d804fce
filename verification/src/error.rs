//! What can go wrong: a pattern that the regex engine refuses, and a path
//! that cannot be read from or written to.

use vstd::prelude::*;

verus! {

/// Why a query was not made, or a file not read or written.
#[derive(Debug)]
pub enum ConfigError {
    /// The engine does not accept the pattern; `message` is what it says.
    InvalidRegex { pattern: String, message: String },
    /// The store's path is a directory.
    PathIsDirectory,
    /// Nothing that can be read is at the store's path.
    PathNotFile,
    /// The store has no path.
    NoPathSet,
}

impl ConfigError {
    /// The pattern that was refused; the empty text for any other error.
    pub open spec fn refused(&self) -> Seq<char> {
        match self {
            ConfigError::InvalidRegex { pattern, message } => pattern@,
            _ => Seq::empty(),
        }
    }

    /// What the engine said of the pattern; the empty text for any other
    /// error.
    pub open spec fn told(&self) -> Seq<char> {
        match self {
            ConfigError::InvalidRegex { pattern, message } => message@,
            _ => Seq::empty(),
        }
    }

    /// The error in words.
    pub open spec fn text(&self) -> Seq<char> {
        match self {
            ConfigError::InvalidRegex { pattern, message } => {
                "Error! Regex pattern for key is not correct: "@ + pattern@ + "\n"@ + message@
            },
            ConfigError::PathIsDirectory => "Path is a directory."@,
            ConfigError::PathNotFile => "Path not a file."@,
            ConfigError::NoPathSet => "No path set."@,
        }
    }

    /// The error in words: for a pattern, the pattern and then what the
    /// engine says of it; for a path, what is wrong with it.
    pub fn to_string(&self) -> (text: String)
        ensures
            text@ == self.text(),
    {
        match self {
            ConfigError::InvalidRegex { pattern, message } => {
                let mut text = String::from_str("Error! Regex pattern for key is not correct: ");
                text.append(pattern.as_str());
                text.append("\n");
                text.append(message.as_str());
                text
            },
            ConfigError::PathIsDirectory => String::from_str("Path is a directory."),
            ConfigError::PathNotFile => String::from_str("Path not a file."),
            ConfigError::NoPathSet => String::from_str("No path set."),
        }
    }
}

} // verus!
