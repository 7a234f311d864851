//! Open-window descriptors and the snapshot the engine works on.
//!
//! A snapshot pairs each retained window with a synthetic id equal to the
//! window's zero-based position in the source query's result order, so ids
//! stay stable references even though unmapped entries are dropped.

use vstd::prelude::*;

verus! {

/// One open window, as reported by the window manager.
pub struct WindowClient {
    /// Opaque external handle, used only when dispatching focus.
    pub address: String,
    /// Original window title; the stable label users search against.
    pub initial_title: String,
    /// Current window title; may change with the window's content.
    pub title: String,
    /// Original application class identifier.
    pub initial_class: String,
    /// Current application class identifier.
    pub class: String,
    /// Whether the window is currently realized; only mapped windows are kept.
    pub mapped: bool,
}

impl Clone for WindowClient {
    fn clone(&self) -> (r: Self)
        ensures
            r == *self,
    {
        WindowClient {
            address: self.address.clone(),
            initial_title: self.initial_title.clone(),
            title: self.title.clone(),
            initial_class: self.initial_class.clone(),
            class: self.class.clone(),
            mapped: self.mapped,
        }
    }
}

/// The snapshot built from the first `n` source descriptors: each mapped
/// descriptor keeps its zero-based source position as its id, in order.
pub open spec fn spec_snapshot_upto(source: Seq<WindowClient>, n: int) -> Seq<(u64, WindowClient)>
    decreases n,
{
    if n <= 0 {
        Seq::empty()
    } else if source[n - 1].mapped {
        spec_snapshot_upto(source, n - 1).push(((n - 1) as u64, source[n - 1]))
    } else {
        spec_snapshot_upto(source, n - 1)
    }
}

/// The snapshot built from a whole source sequence.
pub open spec fn spec_snapshot(source: Seq<WindowClient>) -> Seq<(u64, WindowClient)> {
    spec_snapshot_upto(source, source.len() as int)
}

/// Every snapshot entry is a mapped source descriptor under its source
/// position, and ids are strictly increasing (hence unique and in source
/// order).
pub proof fn lemma_snapshot_entries(source: Seq<WindowClient>, n: int)
    requires
        0 <= n <= source.len(),
        n <= u64::MAX,
    ensures
        forall|k: int|
            0 <= k < spec_snapshot_upto(source, n).len() ==> {
                &&& 0 <= (#[trigger] spec_snapshot_upto(source, n)[k]).0 < n
                &&& spec_snapshot_upto(source, n)[k].1 == source[spec_snapshot_upto(
                    source,
                    n,
                )[k].0 as int]
                &&& spec_snapshot_upto(source, n)[k].1.mapped
            },
        forall|k1: int, k2: int|
            0 <= k1 < k2 < spec_snapshot_upto(source, n).len() ==> (#[trigger] spec_snapshot_upto(
                source,
                n,
            )[k1]).0 < (#[trigger] spec_snapshot_upto(source, n)[k2]).0,
        forall|i: int|
            0 <= i < n && (#[trigger] source[i]).mapped ==> exists|k: int|
                0 <= k < spec_snapshot_upto(source, n).len() && (#[trigger] spec_snapshot_upto(
                    source,
                    n,
                )[k]).0 == i,
    decreases n,
{
    if n > 0 {
        lemma_snapshot_entries(source, n - 1);
        let prev = spec_snapshot_upto(source, n - 1);
        let cur = spec_snapshot_upto(source, n);
        if source[n - 1].mapped {
            assert(((n - 1) as u64) as int == n - 1);
            assert(cur == prev.push(((n - 1) as u64, source[n - 1])));
            assert forall|k: int| 0 <= k < cur.len() implies {
                &&& 0 <= (#[trigger] cur[k]).0 < n
                &&& cur[k].1 == source[cur[k].0 as int]
                &&& cur[k].1.mapped
            } by {
                if k < prev.len() {
                    assert(cur[k] == prev[k]);
                } else {
                    assert(cur[k] == ((n - 1) as u64, source[n - 1]));
                }
            }
            assert forall|k1: int, k2: int| 0 <= k1 < k2 < cur.len() implies (#[trigger] cur[k1]).0
                < (#[trigger] cur[k2]).0 by {
                if k2 < prev.len() {
                    assert(cur[k1] == prev[k1] && cur[k2] == prev[k2]);
                } else {
                    if k1 < prev.len() {
                        assert(cur[k1] == prev[k1]);
                        assert(0 <= prev[k1].0 < n - 1);
                    }
                }
            }
        }
        assert forall|i: int| 0 <= i < n && (#[trigger] source[i]).mapped implies exists|k: int|
            0 <= k < cur.len() && (#[trigger] cur[k]).0 == i by {
            if i == n - 1 {
                assert(cur[cur.len() - 1].0 == i);
            } else {
                let k = choose|k: int| 0 <= k < prev.len() && (#[trigger] prev[k]).0 == i;
                assert(cur[k].0 == i);
            }
        }
    }
}

/// Builds the session snapshot: keeps exactly the mapped descriptors, in
/// source order, each under an id equal to its position in the unfiltered
/// source.
pub fn build_snapshot(source: Vec<WindowClient>) -> (r: Vec<(u64, WindowClient)>)
    ensures
        r@ == spec_snapshot(source@),
{
    let mut r: Vec<(u64, WindowClient)> = Vec::new();
    let mut i: usize = 0;
    while i < source.len()
        invariant
            i <= source@.len(),
            r@ == spec_snapshot_upto(source@, i as int),
        decreases source@.len() - i,
    {
        if source[i].mapped {
            r.push((i as u64, source[i].clone()));
        }
        i = i + 1;
    }
    r
}

} // verus!
