//! The plugin's settings.
use vstd::prelude::*;

verus! {

/// The format used when the configuration names none.
pub open spec fn default_format_text() -> Seq<char> {
    "{index}. {title}"@
}

/// The plugin's settings.
#[derive(Debug, Clone, PartialEq, Eq)]
pub struct Config {
    /// The title format, e.g. `[{index}] {title}`.
    pub format: String,
}

/// The default format, `{index}. {title}`.
pub fn default_format() -> (r: String)
    ensures
        r@ == default_format_text(),
{
    String::from_str("{index}. {title}")
}

impl Default for Config {
    fn default() -> (r: Self)
        ensures
            r.format@ == default_format_text(),
    {
        Config { format: default_format() }
    }
}

} // verus!
