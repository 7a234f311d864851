//! Effective settings consumed by the engine: the result cap for ranked
//! queries, the path of the window-manager command, and the input prefix
//! that gates whether this engine claims an input at all.

use vstd::prelude::*;

verus! {

/// Default cap on the number of ranked results per query.
pub fn max_entries() -> (r: usize)
    ensures
        r == 10,
{
    10
}

/// Default path of the window-manager command.
pub fn hyprctl_path() -> (r: String)
    ensures
        r@ == "hyprctl"@,
{
    String::from_str("hyprctl")
}

/// Default input prefix: empty, so every input is claimed.
pub fn prefix() -> (r: String)
    ensures
        r@ == ""@,
{
    String::from_str("")
}

/// The settings of one plugin session.
pub struct Config {
    pub max_entries: usize,
    pub hyprctl_path: String,
    pub prefix: String,
}

impl Default for Config {
    fn default() -> (r: Self)
        ensures
            r.max_entries == 10,
            r.hyprctl_path@ == "hyprctl"@,
            r.prefix@ == ""@,
    {
        Self { max_entries: max_entries(), hyprctl_path: hyprctl_path(), prefix: prefix() }
    }
}

} // verus!
