//! The query engine: claims an input by its prefix, strips it, and returns
//! the snapshot either whole (browse) or ranked by fuzzy score and cut to
//! the configured cap.

use vstd::prelude::*;
use vstd::string::StrSliceExecFns;
use crate::client::WindowClient;
use crate::config::Config;
use crate::describe::description;
use crate::describe::spec_description;
use crate::icon::IconTable;
use crate::icon::opt_view;
use crate::icon::resolve_icon;
use crate::icon::spec_resolve_icon;
use crate::client::build_snapshot;
use crate::client::spec_snapshot;
use crate::rank::filter_candidates;
use crate::rank::lemma_rank_props;
use crate::rank::lemma_ranked_elements;
use crate::rank::sort_candidates;
use crate::rank::spec_candidates;
use crate::rank::spec_rank;

verus! {

/// One result row handed back to the launcher host.
pub struct Match {
    /// The primary label: always the window's initial title.
    pub title: String,
    /// The resolved display icon, if any.
    pub icon: Option<String>,
    /// Whether the host should treat the labels as markup; never set here.
    pub use_pango: bool,
    /// The secondary label: the current title, when it differs.
    pub description: Option<String>,
    /// The id of the window this row stands for.
    pub id: Option<u64>,
}

/// The mathematical content of a `Match`.
pub struct MatchView {
    pub title: Seq<char>,
    pub icon: Option<Seq<char>>,
    pub use_pango: bool,
    pub description: Option<Seq<char>>,
    pub id: Option<u64>,
}

impl View for Match {
    type V = MatchView;

    open spec fn view(&self) -> MatchView {
        MatchView {
            title: self.title@,
            icon: opt_view(self.icon),
            use_pango: self.use_pango,
            description: opt_view(self.description),
            id: self.id,
        }
    }
}

/// The result row of one snapshot entry: the initial title as label, the
/// resolved icon, the optional description, and the entry's id.
pub open spec fn spec_build_match(c: WindowClient, id: u64, t: Map<Seq<char>, Seq<char>>) -> MatchView {
    MatchView {
        title: c.initial_title@,
        icon: spec_resolve_icon(t, c),
        use_pango: false,
        description: spec_description(c),
        id: Some(id),
    }
}

/// Builds the result row of one snapshot entry, as `spec_build_match` says.
pub fn build_match(client: &WindowClient, id: u64, table: &IconTable) -> (r: Match)
    requires
        table.wf(),
    ensures
        r@ == spec_build_match(*client, id, table@),
{
    Match {
        title: client.initial_title.clone(),
        icon: resolve_icon(client, table),
        use_pango: false,
        description: description(client),
        id: Some(id),
    }
}

/// One plugin session: the settings, the immutable window snapshot, and
/// the icon table, all built once at init.
pub struct State {
    pub config: Config,
    pub clients: Vec<(u64, WindowClient)>,
    pub desktop_entries: IconTable,
}

impl State {
    /// Whether the session's icon table is well formed; every table this
    /// library builds is.
    pub open spec fn wf(self) -> bool {
        self.desktop_entries.wf()
    }

    /// Builds the session state: the snapshot of the source descriptors,
    /// with the settings and the icon table.
    pub fn new(config: Config, source: Vec<WindowClient>, desktop_entries: IconTable) -> (r: State)
        requires
            desktop_entries.wf(),
        ensures
            r.config == config,
            r.clients@ == spec_snapshot(source@),
            r.desktop_entries == desktop_entries,
            r.wf(),
    {
        State { config, clients: build_snapshot(source), desktop_entries }
    }
}

/// Whether an input starts with the given prefix, by characters.
pub fn starts_with_prefix(input: &str, prefix: &str) -> (r: bool)
    ensures
        r == prefix@.is_prefix_of(input@),
{
    let n = prefix.unicode_len();
    let m = input.unicode_len();
    if m < n {
        return false;
    }
    let mut i: usize = 0;
    while i < n
        invariant
            i <= n,
            n == prefix@.len(),
            m == input@.len(),
            n <= m,
            forall|j: int| 0 <= j < i ==> input@[j] == prefix@[j],
        decreases n - i,
    {
        if input.get_char(i) != prefix.get_char(i) {
            proof {
                if prefix@.is_prefix_of(input@) {
                    assert(prefix@ == input@.subrange(0, prefix@.len() as int));
                    assert(prefix@[i as int] == input@[i as int]);
                }
            }
            return false;
        }
        i = i + 1;
    }
    proof {
        assert(prefix@ =~= input@.subrange(0, prefix@.len() as int));
    }
    true
}

/// What one query returns.
///
/// An input that does not carry the configured prefix is not addressed to
/// this engine: the result is empty. An input that is empty once the
/// prefix is stripped browses: every snapshot entry, in snapshot order,
/// not cut to the cap. Any other input is ranked: the entries scoring
/// strictly positively against the stripped input, in ranking order, cut
/// to at most `max_entries` rows.
pub fn get_matches(input: &str, state: &State) -> (r: Vec<Match>)
    requires
        state.wf(),
    ensures
        ({
            let p = state.config.prefix@;
            let cleaned = input@.skip(p.len() as int);
            let t = state.desktop_entries@;
            let snap = state.clients@;
            let ranked = spec_rank(spec_candidates(snap, cleaned));
            &&& !p.is_prefix_of(input@) ==> r@.len() == 0
            &&& (p.is_prefix_of(input@) && cleaned.len() == 0) ==> {
                &&& r@.len() == snap.len()
                &&& forall|k: int|
                    0 <= k < r@.len() ==> (#[trigger] r@[k])@ == spec_build_match(
                        snap[k].1,
                        snap[k].0,
                        t,
                    )
            }
            &&& (p.is_prefix_of(input@) && cleaned.len() > 0) ==> {
                &&& r@.len() <= state.config.max_entries
                &&& r@.len() == if ranked.len() <= state.config.max_entries {
                    ranked.len() as int
                } else {
                    state.config.max_entries as int
                }
                &&& forall|k: int|
                    0 <= k < r@.len() ==> (#[trigger] r@[k])@ == spec_build_match(
                        snap[ranked[k].idx as int].1,
                        snap[ranked[k].idx as int].0,
                        t,
                    )
            }
        }),
{
    if !starts_with_prefix(input, state.config.prefix.as_str()) {
        return Vec::new();
    }
    let plen = state.config.prefix.as_str().unicode_len();
    let ilen = input.unicode_len();
    let cleaned = input.substring_char(plen, ilen);
    proof {
        assert(cleaned@ =~= input@.skip(plen as int));
    }
    let mut r: Vec<Match> = Vec::new();
    if cleaned.unicode_len() == 0 {
        let mut i: usize = 0;
        while i < state.clients.len()
            invariant
                state.wf(),
                i <= state.clients@.len(),
                r@.len() == i,
                forall|k: int|
                    0 <= k < i ==> (#[trigger] r@[k])@ == spec_build_match(
                        state.clients@[k].1,
                        state.clients@[k].0,
                        state.desktop_entries@,
                    ),
            decreases state.clients@.len() - i,
        {
            let m = build_match(&state.clients[i].1, state.clients[i].0, &state.desktop_entries);
            r.push(m);
            i = i + 1;
        }
        r
    } else {
        let n = state.clients.len();
        proof {
            assert(state.clients@.len() == n as int);
        }
        let cands = filter_candidates(&state.clients, cleaned);
        let mut ranked = sort_candidates(cands);
        let ghost full = spec_rank(spec_candidates(state.clients@, cleaned@));
        proof {
            lemma_ranked_elements(state.clients@, cleaned@);
            lemma_rank_props(spec_candidates(state.clients@, cleaned@));
        }
        ranked.truncate(state.config.max_entries);
        let mut k: usize = 0;
        while k < ranked.len()
            invariant
                state.wf(),
                full == spec_rank(spec_candidates(state.clients@, input@.skip(
                    state.config.prefix@.len() as int,
                ))),
                ranked@.len() == if full.len() <= state.config.max_entries {
                    full.len() as int
                } else {
                    state.config.max_entries as int
                },
                forall|j: int| 0 <= j < ranked@.len() ==> #[trigger] ranked@[j] == full[j],
                forall|j: int|
                    0 <= j < full.len() ==> 0 <= (#[trigger] full[j]).idx
                        < state.clients@.len(),
                k <= ranked@.len(),
                r@.len() == k,
                forall|j: int|
                    0 <= j < k ==> (#[trigger] r@[j])@ == spec_build_match(
                        state.clients@[full[j].idx as int].1,
                        state.clients@[full[j].idx as int].0,
                        state.desktop_entries@,
                    ),
            decreases ranked@.len() - k,
        {
            let idx = ranked[k].idx;
            let m = build_match(
                &state.clients[idx].1,
                state.clients[idx].0,
                &state.desktop_entries,
            );
            r.push(m);
            k = k + 1;
        }
        r
    }
}

} // verus!
