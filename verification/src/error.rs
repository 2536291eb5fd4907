//! The ways in which loading a configuration fails.

use vstd::prelude::*;
use vstd::std_specs::convert::FromSpecImpl;
use vstd::string::*;

verus! {

/// `std::io::Error`: why a file could not be read or written.
#[verifier::external_type_specification]
#[verifier::external_body]
pub struct ExIoError(std::io::Error);

/// Why no session could be started.
#[derive(Debug)]
pub enum CcolError {
    /// The configuration file is no JSON document.
    CorruptedConfig(serde_json::Error),
    /// No directory for the configuration could be determined.
    MissingConfigDirectory,
    /// The document is not a tree of commands: its root is no object, or
    /// something in it is neither a string nor an object.
    ParseConfigError,
    /// The configuration file could not be read or created.
    FileIO(std::io::Error),
}

impl From<std::io::Error> for CcolError {
    fn from(error: std::io::Error) -> (converted: CcolError) {
        CcolError::FileIO(error)
    }
}

impl FromSpecImpl<std::io::Error> for CcolError {
    open spec fn obeys_from_spec() -> bool {
        true
    }

    open spec fn from_spec(error: std::io::Error) -> CcolError {
        CcolError::FileIO(error)
    }
}

impl From<serde_json::Error> for CcolError {
    fn from(error: serde_json::Error) -> (converted: CcolError) {
        CcolError::CorruptedConfig(error)
    }
}

impl FromSpecImpl<serde_json::Error> for CcolError {
    open spec fn obeys_from_spec() -> bool {
        true
    }

    open spec fn from_spec(error: serde_json::Error) -> CcolError {
        CcolError::CorruptedConfig(error)
    }
}

impl CcolError {
    /// The text shown to the user for this error.
    pub open spec fn spec_message(self) -> Seq<char> {
        match self {
            CcolError::CorruptedConfig(_) => "could not parse config file"@,
            CcolError::ParseConfigError => "could not parse config file"@,
            CcolError::MissingConfigDirectory => "could not find config directory"@,
            CcolError::FileIO(_) => "error in file i/o"@,
        }
    }

    /// The text shown to the user for this error.
    pub fn message(&self) -> (text: String)
        ensures
            text@ == self.spec_message(),
    {
        match self {
            CcolError::CorruptedConfig(_) => String::from_str("could not parse config file"),
            CcolError::ParseConfigError => String::from_str("could not parse config file"),
            CcolError::MissingConfigDirectory => String::from_str(
                "could not find config directory",
            ),
            CcolError::FileIO(_) => String::from_str("error in file i/o"),
        }
    }
}

} // verus!
