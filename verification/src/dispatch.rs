//! Focus dispatch: resolving a selected id back to its window's address
//! and building the argument vector of the external focus command. The
//! detached child that waits out the grace period and runs the command
//! lives with the host adapter; the grace period itself is fixed here.

use vstd::prelude::*;
use vstd::string::StringExecFns;
use crate::client::WindowClient;
use crate::icon::opt_view;
use crate::matching::State;

verus! {

/// Milliseconds the detached child waits before invoking the focus
/// command, so the dispatch cannot race the host's own teardown.
pub const GRACE_PERIOD_MS: u64 = 150;

/// The address of the first snapshot entry carrying `id`; none when no
/// entry does.
pub open spec fn spec_find_address(s: Seq<(u64, WindowClient)>, id: u64) -> Option<Seq<char>>
    decreases s.len(),
{
    if s.len() == 0 {
        None
    } else if s[0].0 == id {
        Some(s[0].1.address@)
    } else {
        spec_find_address(s.drop_first(), id)
    }
}

/// An address is found exactly when some snapshot entry carries the id.
pub proof fn lemma_find_address_some(s: Seq<(u64, WindowClient)>, id: u64)
    ensures
        (spec_find_address(s, id) is Some) <==> exists|k: int|
            0 <= k < s.len() && (#[trigger] s[k]).0 == id,
    decreases s.len(),
{
    if s.len() > 0 {
        lemma_find_address_some(s.drop_first(), id);
        if s[0].0 == id {
        } else {
            if spec_find_address(s, id) is Some {
                let k = choose|k: int|
                    0 <= k < s.drop_first().len() && (#[trigger] s.drop_first()[k]).0 == id;
                assert(s[k + 1].0 == id);
            }
            if exists|k: int| 0 <= k < s.len() && (#[trigger] s[k]).0 == id {
                let k = choose|k: int| 0 <= k < s.len() && (#[trigger] s[k]).0 == id;
                assert(s.drop_first()[k - 1].0 == id);
            }
        }
    }
}

/// Resolves a selected id to the address of its window: the first
/// snapshot entry carrying the id, none when the id is stale. A stale id
/// is a contract violation of the host, fatal to the call alone.
pub fn resolve_address(state: &State, id: u64) -> (r: Option<String>)
    ensures
        opt_view(r) == spec_find_address(state.clients@, id),
        (r is Some) <==> exists|k: int|
            0 <= k < state.clients@.len() && (#[trigger] state.clients@[k]).0 == id,
{
    proof {
        lemma_find_address_some(state.clients@, id);
    }
    let full = Ghost(state.clients@);
    proof {
        assert(full@.skip(0) =~= full@);
    }
    let mut i: usize = 0;
    while i < state.clients.len()
        invariant
            full@ == state.clients@,
            i <= full@.len(),
            spec_find_address(full@, id) == spec_find_address(full@.skip(i as int), id),
        decreases full@.len() - i,
    {
        proof {
            assert(full@.skip(i as int)[0] == full@[i as int]);
            assert(full@.skip(i as int).drop_first() =~= full@.skip(i + 1));
        }
        if state.clients[i].0 == id {
            return Some(state.clients[i].1.address.clone());
        }
        i = i + 1;
    }
    proof {
        assert(full@.skip(full@.len() as int) =~= Seq::<(u64, WindowClient)>::empty());
    }
    None
}

/// The argument vector of the focus command for a window address: a
/// dispatch of a focus action addressed by the opaque handle.
pub fn focus_args(address: &str) -> (r: Vec<String>)
    ensures
        r@.len() == 3,
        r@[0]@ == "dispatch"@,
        r@[1]@ == "focuswindow"@,
        r@[2]@ == "address:"@ + address@,
{
    let mut r: Vec<String> = Vec::new();
    r.push(String::from_str("dispatch"));
    r.push(String::from_str("focuswindow"));
    r.push(String::from_str("address:").concat(address));
    r
}

} // verus!
