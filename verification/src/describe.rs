//! The secondary label of a match: the current title, shown only when it
//! differs from the stable initial title, and truncated for display.

use vstd::prelude::*;
use vstd::string::StrSliceExecFns;
use vstd::string::StringExecFns;
use crate::client::WindowClient;
use crate::icon::opt_view;

verus! {

/// Longest description shown verbatim; longer titles are cut to this many
/// characters and get the ellipsis marker.
pub const DESCRIPTION_LIMIT: usize = 75;

/// No description when the current title still equals the initial title;
/// otherwise the current title, cut to `DESCRIPTION_LIMIT` characters with
/// a three-character ellipsis appended when it was longer.
pub open spec fn spec_description(c: WindowClient) -> Option<Seq<char>> {
    if c.title@ == c.initial_title@ {
        None
    } else if c.title@.len() > DESCRIPTION_LIMIT {
        Some(c.title@.subrange(0, DESCRIPTION_LIMIT as int) + "..."@)
    } else {
        Some(c.title@)
    }
}

/// Builds the optional description of a window, as `spec_description` says.
pub fn description(client: &WindowClient) -> (r: Option<String>)
    ensures
        opt_view(r) == spec_description(*client),
{
    if client.title == client.initial_title {
        return None;
    }
    let len = client.title.as_str().unicode_len();
    if len > DESCRIPTION_LIMIT {
        let head = client.title.as_str().substring_char(0, DESCRIPTION_LIMIT);
        Some(String::from_str(head).concat("..."))
    } else {
        Some(client.title.clone())
    }
}

} // verus!
