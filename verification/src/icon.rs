//! Icon resolution: a read-only table from lowercased application name to
//! icon identifier, and the layered lookup that picks a display icon for a
//! window.

use vstd::prelude::*;
use crate::client::WindowClient;

verus! {

/// What `str::to_lowercase` returns for a given character sequence.
pub uninterp spec fn lower_of(s: Seq<char>) -> Seq<char>;

/// Relies on str::to_lowercase: the result depends on the characters alone.
#[verifier::external_body]
fn lowercase(s: &str) -> (r: String)
    ensures
        r@ == lower_of(s@),
{
    s.to_lowercase()
}

/// One application descriptor of the icon-table collaborator: a name and
/// the icon identifier registered for it.
pub struct DesktopEntry {
    pub name: String,
    pub icon: String,
}

/// The mapping described by an association list, later pairs overriding
/// earlier ones with the same key.
pub open spec fn table_map(s: Seq<(String, String)>) -> Map<Seq<char>, Seq<char>>
    decreases s.len(),
{
    if s.len() == 0 {
        Map::empty()
    } else {
        table_map(s.drop_last()).insert(s.last().0@, s.last().1@)
    }
}

/// No two pairs share a key.
pub open spec fn keys_unique(s: Seq<(String, String)>) -> bool {
    forall|i: int, j: int| 0 <= i < j < s.len() ==> (#[trigger] s[i]).0@ != (#[trigger] s[j]).0@
}

proof fn lemma_table_map_hit(s: Seq<(String, String)>, i: int)
    requires
        keys_unique(s),
        0 <= i < s.len(),
    ensures
        table_map(s).contains_key(s[i].0@),
        table_map(s)[s[i].0@] == s[i].1@,
    decreases s.len(),
{
    if i < s.len() - 1 {
        assert(forall|a: int, b: int|
            0 <= a < b < s.drop_last().len() ==> (#[trigger] s.drop_last()[a]).0@
                != (#[trigger] s.drop_last()[b]).0@);
        lemma_table_map_hit(s.drop_last(), i);
        assert(s[i].0@ != s.last().0@);
    }
}

proof fn lemma_table_map_miss(s: Seq<(String, String)>, k: Seq<char>)
    requires
        forall|i: int| 0 <= i < s.len() ==> (#[trigger] s[i]).0@ != k,
    ensures
        !table_map(s).contains_key(k),
    decreases s.len(),
{
    if s.len() > 0 {
        assert(forall|i: int|
            0 <= i < s.drop_last().len() ==> (#[trigger] s.drop_last()[i]).0@ != k);
        lemma_table_map_miss(s.drop_last(), k);
        assert(s.last() == s[s.len() - 1]);
    }
}

/// The icon table of one session: a name-to-icon mapping, read-only after
/// construction.
pub struct IconTable {
    entries: Vec<(String, String)>,
}

impl View for IconTable {
    type V = Map<Seq<char>, Seq<char>>;

    closed spec fn view(&self) -> Map<Seq<char>, Seq<char>> {
        table_map(self.entries@)
    }
}

impl IconTable {
    /// The table holds no pair twice under one key.
    pub closed spec fn wf(self) -> bool {
        keys_unique(self.entries@)
    }

    /// An empty table: every lookup misses.
    pub fn new() -> (r: IconTable)
        ensures
            r.wf(),
            r@ == Map::<Seq<char>, Seq<char>>::empty(),
    {
        IconTable { entries: Vec::new() }
    }

    /// Registers `icon` under the lowercased `name`, replacing an earlier
    /// registration of the same key.
    pub fn insert(&mut self, name: &str, icon: String)
        requires
            old(self).wf(),
        ensures
            final(self).wf(),
            final(self)@ == old(self)@.insert(lower_of(name@), icon@),
    {
        let key = lowercase(name);
        let mut i: usize = 0;
        while i < self.entries.len()
            invariant
                i <= self.entries@.len(),
                self == old(self),
                self.wf(),
                key@ == lower_of(name@),
                forall|j: int| 0 <= j < i ==> (#[trigger] self.entries@[j]).0@ != key@,
            decreases self.entries@.len() - i,
        {
            if self.entries[i].0 == key {
                proof {
                    lemma_update_is_insert(self.entries@, i as int, key, icon);
                }
                self.entries.set(i, (key, icon));
                return ;
            }
            i = i + 1;
        }
        proof {
            assert(self.entries@.push((key, icon)).drop_last() == self.entries@);
            assert(self.entries@.push((key, icon)).last() == (key, icon));
            assert forall|a: int, b: int|
                0 <= a < b < self.entries@.push((key, icon)).len() implies (
            #[trigger] self.entries@.push((key, icon))[a]).0@ != (#[trigger] self.entries@.push(
                (key, icon),
            )[b]).0@ by {
                if b < self.entries@.len() {
                    assert(self.entries@.push((key, icon))[a] == self.entries@[a]);
                    assert(self.entries@.push((key, icon))[b] == self.entries@[b]);
                } else {
                    assert(self.entries@.push((key, icon))[a] == self.entries@[a]);
                }
            }
        }
        self.entries.push((key, icon));
    }

    /// Looks a key up; returns the icon registered under it, if any.
    pub fn get(&self, key: &String) -> (r: Option<String>)
        requires
            self.wf(),
        ensures
            r is Some <==> self@.contains_key(key@),
            r is Some ==> r->Some_0@ == self@[key@],
    {
        let mut i: usize = 0;
        while i < self.entries.len()
            invariant
                self.wf(),
                i <= self.entries@.len(),
                forall|j: int| 0 <= j < i ==> (#[trigger] self.entries@[j]).0@ != key@,
            decreases self.entries@.len() - i,
        {
            if self.entries[i].0 == *key {
                proof {
                    lemma_table_map_hit(self.entries@, i as int);
                }
                return Some(self.entries[i].1.clone());
            }
            i = i + 1;
        }
        proof {
            lemma_table_map_miss(self.entries@, key@);
        }
        None
    }
}

proof fn lemma_update_is_insert(s: Seq<(String, String)>, i: int, key: String, icon: String)
    requires
        keys_unique(s),
        0 <= i < s.len(),
        s[i].0@ == key@,
    ensures
        keys_unique(s.update(i, (key, icon))),
        table_map(s.update(i, (key, icon))) == table_map(s).insert(key@, icon@),
    decreases s.len(),
{
    let t = s.update(i, (key, icon));
    assert forall|a: int, b: int| 0 <= a < b < t.len() implies (#[trigger] t[a]).0@ != (
    #[trigger] t[b]).0@ by {
        assert(t[a].0@ == s[a].0@ && t[b].0@ == s[b].0@);
    }
    if i == s.len() - 1 {
        assert(t.drop_last() == s.drop_last());
        assert(t.last() == (key, icon));
        assert(table_map(t) == table_map(s.drop_last()).insert(key@, icon@));
        assert(table_map(s) == table_map(s.drop_last()).insert(s.last().0@, s.last().1@));
        assert(table_map(s).insert(key@, icon@) =~= table_map(s.drop_last()).insert(key@, icon@));
    } else {
        assert(forall|a: int, b: int|
            0 <= a < b < s.drop_last().len() ==> (#[trigger] s.drop_last()[a]).0@
                != (#[trigger] s.drop_last()[b]).0@);
        lemma_update_is_insert(s.drop_last(), i, key, icon);
        assert(t.drop_last() =~= s.drop_last().update(i, (key, icon)));
        assert(t.last() == s.last());
        assert(table_map(t) == table_map(s.drop_last()).insert(key@, icon@).insert(
            s.last().0@,
            s.last().1@,
        ));
        assert(s[i].0@ != s.last().0@);
        assert(table_map(s.drop_last()).insert(key@, icon@).insert(s.last().0@, s.last().1@)
            =~= table_map(s.drop_last()).insert(s.last().0@, s.last().1@).insert(key@, icon@));
    }
}

/// Where the icon for a window comes from: lowercase lookups of the current
/// class, the current title, the initial class and the initial title, in
/// that order; the first hit wins.
pub open spec fn spec_resolve_icon(t: Map<Seq<char>, Seq<char>>, c: WindowClient) -> Option<
    Seq<char>,
> {
    if t.contains_key(lower_of(c.class@)) {
        Some(t[lower_of(c.class@)])
    } else if t.contains_key(lower_of(c.title@)) {
        Some(t[lower_of(c.title@)])
    } else if t.contains_key(lower_of(c.initial_class@)) {
        Some(t[lower_of(c.initial_class@)])
    } else if t.contains_key(lower_of(c.initial_title@)) {
        Some(t[lower_of(c.initial_title@)])
    } else {
        None
    }
}

/// The view of an optional owned string.
pub open spec fn opt_view(o: Option<String>) -> Option<Seq<char>> {
    match o {
        Some(s) => Some(s@),
        None => None,
    }
}

/// Resolves the display icon for a window through the layered lookup of
/// `spec_resolve_icon`.
pub fn resolve_icon(client: &WindowClient, table: &IconTable) -> (r: Option<String>)
    requires
        table.wf(),
    ensures
        opt_view(r) == spec_resolve_icon(table@, *client),
{
    let k = lowercase(client.class.as_str());
    if let Some(icon) = table.get(&k) {
        return Some(icon);
    }
    let k = lowercase(client.title.as_str());
    if let Some(icon) = table.get(&k) {
        return Some(icon);
    }
    let k = lowercase(client.initial_class.as_str());
    if let Some(icon) = table.get(&k) {
        return Some(icon);
    }
    let k = lowercase(client.initial_title.as_str());
    if let Some(icon) = table.get(&k) {
        return Some(icon);
    }
    None
}

} // verus!
