//! The options of a run.
use vstd::prelude::*;
use vstd::string::*;

verus! {

/// The options of a run: one domain or a file that lists domains, whether
/// to echo the kept URLs, an optional proxy, and the placeholder written in
/// place of every query value.
pub struct Cli {
    pub domain: Option<String>,
    pub list: Option<String>,
    pub stream: bool,
    pub proxy: Option<String>,
    pub placeholder: String,
}

/// The placeholder used when none is given.
pub fn default_placeholder() -> (r: String)
    ensures
        r@ == "FUZZ"@,
{
    String::from_str("FUZZ")
}

} // verus!
