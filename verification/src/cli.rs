//! Values of the command line that need checking beyond their syntax.

use vstd::prelude::*;

use crate::text::{chars_of, same_text, trim, trim_range};
use crate::timestamp::{is_timestamp, is_valid};

verus! {

/// Reported for a blank directory argument.
pub const EMPTY_DIR_ERROR: &'static str = "directory must not be empty";

/// Reported for a base that is neither a keyword nor a timestamp.
pub const BASE_ERROR: &'static str = "expected \"last\", \"last-full\" (or its alias \"full\"), or a YYYY-MM-DD-HHMM timestamp";

/// The snapshot an incremental run builds on.
#[derive(Clone)]
pub enum BaseSpec {
    /// The newest snapshot of any kind.
    Last,
    /// The newest full snapshot.
    LastFull,
    /// The snapshot taken at this timestamp.
    Timestamp(String),
}

/// Rejects blank values: without this an environment variable exported
/// as `VAR=""` would silently satisfy the argument and turn into an empty
/// path.
pub fn parse_dir(text: &str) -> (dir: Result<String, String>)
    ensures
        match dir {
            Ok(d) => d@ == text@ && trim(text@).len() > 0,
            Err(m) => m@ == EMPTY_DIR_ERROR@ && trim(text@).len() == 0,
        },
{
    let chars = chars_of(text);
    let (start, end) = trim_range(&chars, 0, chars.len());
    assert(chars@.subrange(0, chars@.len() as int) =~= text@);
    if start == end {
        Err(String::from_str(EMPTY_DIR_ERROR))
    } else {
        Ok(String::from_str(text))
    }
}

/// Reads a `--base` value: `last`, `last-full` (or its alias `full`), or a
/// `YYYY-MM-DD-HHMM` timestamp.
pub fn parse_base(text: &str) -> (base: Result<BaseSpec, String>)
    ensures
        match base {
            Ok(BaseSpec::Last) => text@ == "last"@,
            Ok(BaseSpec::LastFull) => text@ == "last-full"@ || text@ == "full"@,
            Ok(BaseSpec::Timestamp(t)) => {
                &&& t@ == text@
                &&& is_timestamp(text@)
                &&& text@ != "last"@
                &&& text@ != "last-full"@
                &&& text@ != "full"@
            },
            Err(m) => {
                &&& m@ == BASE_ERROR@
                &&& text@ != "last"@
                &&& text@ != "last-full"@
                &&& text@ != "full"@
                &&& !is_timestamp(text@)
            },
        },
{
    if same_text(text, "last") {
        Ok(BaseSpec::Last)
    } else if same_text(text, "last-full") || same_text(text, "full") {
        Ok(BaseSpec::LastFull)
    } else if is_valid(text) {
        Ok(BaseSpec::Timestamp(String::from_str(text)))
    } else {
        Err(String::from_str(BASE_ERROR))
    }
}

} // verus!
