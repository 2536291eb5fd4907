//! The text that the command line shows about the program.

use vstd::prelude::*;
use vstd::string::*;

verus! {

/// The directory named where none could be determined.
pub open spec fn default_config_dir() -> Seq<char> {
    "$HOME/.config/ccol/"@
}

/// The text of `about`: the authors and the configuration directory, or the
/// default directory where none is known.
pub open spec fn about_text(author: Seq<char>, config_dir: Option<Seq<char>>) -> Seq<char> {
    "Authors: "@ + author + "\n\nConfig directory: "@ + match config_dir {
        Some(directory) => directory,
        None => default_config_dir(),
    }
}

/// Describes the program: its authors and where its configuration lives.
pub fn about(author: &str, config_dir: Option<&str>) -> (text: String)
    ensures
        text@ == about_text(author@, match config_dir {
            Some(directory) => Some(directory@),
            None => None,
        }),
{
    let directory = match config_dir {
        Some(directory) => directory,
        None => "$HOME/.config/ccol/",
    };
    String::from_str("Authors: ").concat(author).concat("\n\nConfig directory: ").concat(directory)
}

} // verus!
