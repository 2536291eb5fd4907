//! Where the configuration lives and how its text becomes a document.

use crate::error::CcolError;
use crate::json::{json_parsed, parse_json};
use serde_json::Value;
use std::path::PathBuf;
use vstd::prelude::*;
use vstd::string::*;
use vstd::utf8::encode_utf8;

verus! {

/// `std::path::PathBuf`: an owned path of the file system.
#[verifier::external_type_specification]
#[verifier::external_body]
pub struct ExPathBuf(std::path::PathBuf);

/// The bytes that a path consists of.
pub uninterp spec fn path_bytes(path: PathBuf) -> Seq<u8>;

/// The bytes of the path that `PathBuf::push` makes of a path of the bytes
/// `base` and the relative or absolute path `part`.
pub uninterp spec fn path_pushed(base: Seq<u8>, part: Seq<char>) -> Seq<u8>;

/// Calls `PathBuf::from` on a string: the path consists of the bytes of the
/// string.
#[verifier::external_body]
fn path_from(text: String) -> (path: PathBuf)
    ensures
        path_bytes(path) == encode_utf8(text@),
{
    PathBuf::from(text)
}

/// Calls `PathBuf::push`, which extends the path with `part`, or replaces it
/// where `part` is absolute. The contract gives the new path a name.
#[verifier::external_body]
fn push_path(path: &mut PathBuf, part: &str)
    ensures
        path_bytes(*final(path)) == path_pushed(path_bytes(*old(path)), part@),
{
    path.push(part)
}

/// Asks `directories::ProjectDirs::from` for the local configuration
/// directory of the named program. The answer depends on the user's
/// environment, and there is none where no home directory is known: nothing
/// is promised of it.
#[verifier::external_body]
fn project_config_dir(qualifier: &str, organization: &str, application: &str) -> (directory: Option<
    PathBuf,
>) {
    directories::ProjectDirs::from(qualifier, organization, application).map(
        |dirs| dirs.config_local_dir().to_path_buf(),
    )
}

/// The name of the configuration file inside the configuration directory.
pub open spec fn config_file_name() -> Seq<char> {
    "ccol.json"@
}

/// The text of a configuration that holds nothing: an empty object.
pub open spec fn empty_config() -> Seq<char> {
    "{}"@
}

/// Parses the contents of a configuration file into a document.
pub fn parse_config(contents: &[u8]) -> (outcome: Result<Value, CcolError>)
    ensures
        match outcome {
            Ok(value) => json_parsed(contents@) == Some(value),
            Err(error) => json_parsed(contents@).is_none() && error is CorruptedConfig,
        },
{
    match parse_json(contents) {
        Ok(value) => Ok(value),
        Err(error) => Err(CcolError::from(error)),
    }
}

/// The contents with which a missing configuration file is created.
pub fn default_config() -> (text: String)
    ensures
        text@ == empty_config(),
{
    String::from_str("{}")
}

/// Decides on the configuration directory: `ccol` under the configured
/// directory where one is configured, else the fallback, else none.
pub fn choose_config_dir(configured: Option<String>, fallback: Option<PathBuf>) -> (outcome: Result<
    PathBuf,
    CcolError,
>)
    ensures
        match (configured, fallback) {
            (Some(root), _) => outcome is Ok && path_bytes(outcome->Ok_0) == path_pushed(
                encode_utf8(root@),
                "ccol"@,
            ),
            (None, Some(directory)) => outcome == Ok::<PathBuf, CcolError>(directory),
            (None, None) => outcome is Err && outcome->Err_0 is MissingConfigDirectory,
        },
{
    match configured {
        Some(root) => {
            let mut directory = path_from(root);
            push_path(&mut directory, "ccol");
            Ok(directory)
        },
        None => match fallback {
            Some(directory) => Ok(directory),
            None => Err(CcolError::MissingConfigDirectory),
        },
    }
}

/// Decides on the configuration directory: `ccol` under the configured
/// directory where one is configured, else the directory that the system
/// assigns to this program. Fails only where nothing is configured and the
/// system assigns none.
pub fn get_config_dir(configured: Option<String>) -> (outcome: Result<PathBuf, CcolError>)
    ensures
        match configured {
            Some(root) => outcome is Ok && path_bytes(outcome->Ok_0) == path_pushed(
                encode_utf8(root@),
                "ccol"@,
            ),
            None => outcome is Err ==> outcome->Err_0 is MissingConfigDirectory,
        },
{
    let fallback = if configured.is_none() {
        project_config_dir("io", "rosswilson", "ccol")
    } else {
        None
    };
    choose_config_dir(configured, fallback)
}

/// The path of the configuration file in the directory `config_dir`.
pub fn get_config_file(config_dir: PathBuf) -> (file: PathBuf)
    ensures
        path_bytes(file) == path_pushed(path_bytes(config_dir), config_file_name()),
{
    let mut config_dir = config_dir;
    push_path(&mut config_dir, "ccol.json");
    config_dir
}

} // verus!
