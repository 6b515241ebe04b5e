//! Dashboard state that is not drawing: the type toggles, the search query,
//! hover and selection, and the network statistics shown in the side panel.

use std::sync::Arc;
use vstd::prelude::*;

use crate::map_plugin::RelayMapPlugin;
use crate::relay::{OnionooResponse, Relay};

verus! {

/// Counts shown in the "NETWORK" panel.
#[derive(Clone, Copy, Debug, PartialEq, Eq, Structural)]
pub struct NetworkStats {
    pub total_relays: usize,
    /// Relays with the Guard flag and without the Exit flag.
    pub n_guard: usize,
    /// Relays with the Exit flag, guard+exits included.
    pub n_exit: usize,
    /// Relays with neither flag.
    pub n_middle: usize,
    /// Distinct country codes among the relays that give one.
    pub n_countries: usize,
}

/// Among the first `n` relays: guards that are not exits, exits, and middles.
pub open spec fn role_counts(relays: Seq<Relay>, n: int) -> (nat, nat, nat)
    decreases n,
{
    if n <= 0 {
        (0, 0, 0)
    } else {
        let t = role_counts(relays, n - 1);
        let r = relays[n - 1];
        (
            if r.spec_is_guard() && !r.spec_is_exit() { t.0 + 1 } else { t.0 },
            if r.spec_is_exit() { t.1 + 1 } else { t.1 },
            if !r.spec_is_guard() && !r.spec_is_exit() { t.2 + 1 } else { t.2 },
        )
    }
}

/// The country codes given by the first `n` relays.
pub open spec fn country_set(relays: Seq<Relay>, n: int) -> Set<Seq<char>>
    decreases n,
{
    if n <= 0 {
        Set::empty()
    } else {
        match relays[n - 1].country {
            Some(c) => country_set(relays, n - 1).insert(c@),
            None => country_set(relays, n - 1),
        }
    }
}

/// The statistics of a relay list.
pub open spec fn stats_of(relays: Seq<Relay>) -> NetworkStats {
    NetworkStats {
        total_relays: relays.len() as usize,
        n_guard: role_counts(relays, relays.len() as int).0 as usize,
        n_exit: role_counts(relays, relays.len() as int).1 as usize,
        n_middle: role_counts(relays, relays.len() as int).2 as usize,
        n_countries: country_set(relays, relays.len() as int).len() as usize,
    }
}

/// Guards, exits and middles partition the relays, so their counts add up
/// to the number of relays.
pub proof fn lemma_roles_partition(relays: Seq<Relay>, n: int)
    requires
        0 <= n,
    ensures
        role_counts(relays, n).0 + role_counts(relays, n).1 + role_counts(relays, n).2 == n,
    decreases n,
{
    if n > 0 {
        lemma_roles_partition(relays, n - 1);
    }
}

proof fn lemma_country_set_finite(relays: Seq<Relay>, n: int)
    ensures
        country_set(relays, n).finite(),
        country_set(relays, n).len() <= if n < 0 { 0 } else { n },
    decreases n,
{
    if n > 0 {
        lemma_country_set_finite(relays, n - 1);
    }
}

impl NetworkStats {
    /// Counts the relays by role and their distinct countries.
    pub fn from_relays(relays: &Vec<Relay>) -> (s: NetworkStats)
        ensures
            s == stats_of(relays@),
            s.n_guard + s.n_exit + s.n_middle == s.total_relays,
    {
        let ghost rs = relays@;
        let mut n_guard: usize = 0;
        let mut n_exit: usize = 0;
        let mut n_middle: usize = 0;
        let mut seen: Vec<String> = Vec::new();
        let ghost mut seen_view: Seq<Seq<char>> = Seq::empty();
        let mut i: usize = 0;
        while i < relays.len()
            invariant
                rs == relays@,
                i <= relays.len(),
                n_guard == role_counts(rs, i as int).0,
                n_exit == role_counts(rs, i as int).1,
                n_middle == role_counts(rs, i as int).2,
                seen_view.len() == seen.len(),
                forall|k: int| 0 <= k < seen.len() ==> #[trigger] seen_view[k] == seen@[k]@,
                seen_view.no_duplicates(),
                seen_view.to_set() == country_set(rs, i as int),
            decreases relays.len() - i,
        {
            proof {
                lemma_roles_partition(rs, i as int);
            }
            let r = &relays[i];
            let g = r.is_guard();
            let e = r.is_exit();
            if g && !e {
                n_guard = n_guard + 1;
            }
            if e {
                n_exit = n_exit + 1;
            }
            if !g && !e {
                n_middle = n_middle + 1;
            }
            match &r.country {
                Some(c) => {
                    let mut found = false;
                    let mut k: usize = 0;
                    while k < seen.len() && !found
                        invariant
                            k <= seen.len(),
                            seen_view.len() == seen.len(),
                            forall|m: int| 0 <= m < seen.len() ==> #[trigger] seen_view[m] == seen@[m]@,
                            found ==> seen_view.contains(c@),
                            !found ==> forall|m: int| 0 <= m < k ==> seen_view[m] != c@,
                        decreases seen.len() - k + (if found { 0int } else { 1int }),
                    {
                        if seen[k] == *c {
                            found = true;
                            proof {
                                assert(seen_view[k as int] == c@);
                            }
                        } else {
                            k = k + 1;
                        }
                    }
                    proof {
                        broadcast use vstd::seq_lib::group_seq_properties;
                    }
                    if !found {
                        seen.push(c.clone());
                        proof {
                            let old_view = seen_view;
                            seen_view = seen_view.push(c@);
                            assert(seen_view.to_set() =~= old_view.to_set().insert(c@)) by {
                                broadcast use vstd::seq_lib::group_seq_properties;
                            }
                        }
                    } else {
                        proof {
                            assert(seen_view.to_set() =~= seen_view.to_set().insert(c@));
                        }
                    }
                },
                None => {},
            }
            i = i + 1;
        }
        proof {
            seen_view.unique_seq_to_set();
            lemma_roles_partition(rs, i as int);
        }
        NetworkStats {
            total_relays: relays.len(),
            n_guard,
            n_exit,
            n_middle,
            n_countries: seen.len(),
        }
    }
}

/// The dashboard's non-drawing state.
pub struct DashboardState {
    pub filter_guard: bool,
    pub filter_exit: bool,
    pub filter_middle: bool,
    pub search_query: String,
    pub hovered_idx: Option<usize>,
    pub selected_idx: Option<usize>,
    pub stats: NetworkStats,
    pub show_about: bool,
}

impl DashboardState {
    /// Every type shown, no query, nothing hovered or selected, no data yet.
    pub fn new() -> (s: DashboardState)
        ensures
            s.filter_guard && s.filter_exit && s.filter_middle,
            s.search_query@ == Seq::<char>::empty(),
            s.hovered_idx is None,
            s.selected_idx is None,
            s.stats == (NetworkStats {
                total_relays: 0,
                n_guard: 0,
                n_exit: 0,
                n_middle: 0,
                n_countries: 0,
            }),
            !s.show_about,
    {
        DashboardState {
            filter_guard: true,
            filter_exit: true,
            filter_middle: true,
            search_query: String::new(),
            hovered_idx: None,
            selected_idx: None,
            stats: NetworkStats {
                total_relays: 0,
                n_guard: 0,
                n_exit: 0,
                n_middle: 0,
                n_countries: 0,
            },
            show_about: false,
        }
    }

    /// Recomputes the statistics from the relay data.
    pub fn update_stats(&mut self, data: &OnionooResponse)
        ensures
            final(self).stats == stats_of(data.relays@),
            final(self).filter_guard == old(self).filter_guard,
            final(self).filter_exit == old(self).filter_exit,
            final(self).filter_middle == old(self).filter_middle,
            final(self).search_query == old(self).search_query,
            final(self).hovered_idx == old(self).hovered_idx,
            final(self).selected_idx == old(self).selected_idx,
            final(self).show_about == old(self).show_about,
    {
        self.stats = NetworkStats::from_relays(&data.relays);
    }

    /// Start of a frame: statistics are computed once, when data is first
    /// available and none have been counted; the hover is cleared.
    pub fn update(&mut self, data: Option<&OnionooResponse>)
        ensures
            final(self).stats == (match data {
                Some(d) => if old(self).stats.total_relays == 0 {
                    stats_of(d.relays@)
                } else {
                    old(self).stats
                },
                None => old(self).stats,
            }),
            final(self).hovered_idx is None,
            final(self).filter_guard == old(self).filter_guard,
            final(self).filter_exit == old(self).filter_exit,
            final(self).filter_middle == old(self).filter_middle,
            final(self).search_query == old(self).search_query,
            final(self).selected_idx == old(self).selected_idx,
            final(self).show_about == old(self).show_about,
    {
        if let Some(d) = data {
            if self.stats.total_relays == 0 {
                self.update_stats(d);
            }
        }
        self.hovered_idx = None;
    }

    /// The map layer for this frame, with the current filters.
    pub fn map_plugin(&self, relays: Arc<OnionooResponse>) -> (p: RelayMapPlugin)
        ensures
            p.relays == relays,
            p.filter_guard == self.filter_guard,
            p.filter_exit == self.filter_exit,
            p.filter_middle == self.filter_middle,
            p.search_query@ == self.search_query@,
    {
        RelayMapPlugin {
            relays,
            filter_guard: self.filter_guard,
            filter_exit: self.filter_exit,
            filter_middle: self.filter_middle,
            search_query: self.search_query.clone(),
        }
    }
}

/// Relays, among the first `n`, whose index satisfies `pred`.
pub open spec fn indices_where(n: int, pred: spec_fn(int) -> bool) -> Set<int> {
    Set::new(|i: int| 0 <= i < n && pred(i))
}

pub proof fn lemma_indices_where_step(n: int, pred: spec_fn(int) -> bool)
    requires
        n > 0,
    ensures
        indices_where(n, pred) == if pred(n - 1) {
            indices_where(n - 1, pred).insert(n - 1)
        } else {
            indices_where(n - 1, pred)
        },
{
    if pred(n - 1) {
        assert(indices_where(n, pred) =~= indices_where(n - 1, pred).insert(n - 1));
    } else {
        assert(indices_where(n, pred) =~= indices_where(n - 1, pred));
    }
}

/// The counts are the sizes of the sets of relays with each role: guards
/// that are not exits, exits, and relays that are neither.
pub proof fn lemma_role_counts_are_sizes(relays: Seq<Relay>, n: int)
    requires
        0 <= n <= relays.len(),
    ensures
        indices_where(n, |i: int| relays[i].spec_is_guard() && !relays[i].spec_is_exit()).finite(),
        indices_where(n, |i: int| relays[i].spec_is_exit()).finite(),
        indices_where(n, |i: int| !relays[i].spec_is_guard() && !relays[i].spec_is_exit()).finite(),
        role_counts(relays, n).0 == indices_where(
            n,
            |i: int| relays[i].spec_is_guard() && !relays[i].spec_is_exit(),
        ).len(),
        role_counts(relays, n).1 == indices_where(n, |i: int| relays[i].spec_is_exit()).len(),
        role_counts(relays, n).2 == indices_where(
            n,
            |i: int| !relays[i].spec_is_guard() && !relays[i].spec_is_exit(),
        ).len(),
    decreases n,
{
    let pg = |i: int| relays[i].spec_is_guard() && !relays[i].spec_is_exit();
    let pe = |i: int| relays[i].spec_is_exit();
    let pm = |i: int| !relays[i].spec_is_guard() && !relays[i].spec_is_exit();
    if n == 0 {
        assert(indices_where(n, pg) =~= Set::empty());
        assert(indices_where(n, pe) =~= Set::empty());
        assert(indices_where(n, pm) =~= Set::empty());
    } else {
        lemma_role_counts_are_sizes(relays, n - 1);
        lemma_indices_where_step(n, pg);
        lemma_indices_where_step(n, pe);
        lemma_indices_where_step(n, pm);
    }
}

/// Every country code that any of the first `n` relays gives.
pub open spec fn given_countries(relays: Seq<Relay>, n: int) -> Set<Seq<char>> {
    Set::new(
        |c: Seq<char>|
            exists|i: int| 0 <= i < n && (#[trigger] relays[i].country) is Some && relays[i].country->0@ == c,
    )
}

/// The country count is the number of distinct codes the relays give:
/// every relay's code is counted, and nothing else is.
pub proof fn lemma_countries_are_given_codes(relays: Seq<Relay>, n: int)
    requires
        0 <= n <= relays.len(),
    ensures
        country_set(relays, n) == given_countries(relays, n),
        given_countries(relays, n).finite(),
        forall|i: int|
            0 <= i < n && (#[trigger] relays[i].country) is Some ==> country_set(relays, n).contains(
                relays[i].country->0@,
            ),
    decreases n,
{
    lemma_country_set_finite(relays, n);
    if n > 0 {
        lemma_countries_are_given_codes(relays, n - 1);
        assert forall|c: Seq<char>| #[trigger] country_set(relays, n).contains(c) == given_countries(
            relays,
            n,
        ).contains(c) by {
            if given_countries(relays, n).contains(c) {
                let i = choose|i: int|
                    0 <= i < n && (#[trigger] relays[i].country) is Some && relays[i].country->0@ == c;
                if i < n - 1 {
                    assert(given_countries(relays, n - 1).contains(c));
                }
            }
            if country_set(relays, n - 1).contains(c) {
                assert(given_countries(relays, n - 1).contains(c));
                let i = choose|i: int|
                    0 <= i < n - 1 && (#[trigger] relays[i].country) is Some && relays[i].country->0@ == c;
                assert(given_countries(relays, n).contains(c));
            }
            if relays[n - 1].country is Some && relays[n - 1].country->0@ == c {
                assert(given_countries(relays, n).contains(c));
            }
        }
        assert(country_set(relays, n) =~= given_countries(relays, n));
    } else {
        assert(given_countries(relays, n) =~= Set::empty());
    }
}

/// The statistics sidebar: the total is the number of relays, the role
/// counts are the sizes of the role sets, and the country count is the
/// number of distinct codes the relays give, at least one as soon as any
/// relay gives a code.
pub proof fn lemma_stats_meaning(relays: Seq<Relay>)
    requires
        relays.len() <= usize::MAX,
    ensures
        stats_of(relays).total_relays == relays.len(),
        stats_of(relays).n_guard == indices_where(
            relays.len() as int,
            |i: int| relays[i].spec_is_guard() && !relays[i].spec_is_exit(),
        ).len(),
        stats_of(relays).n_exit == indices_where(
            relays.len() as int,
            |i: int| relays[i].spec_is_exit(),
        ).len(),
        stats_of(relays).n_middle == indices_where(
            relays.len() as int,
            |i: int| !relays[i].spec_is_guard() && !relays[i].spec_is_exit(),
        ).len(),
        stats_of(relays).n_countries == given_countries(relays, relays.len() as int).len(),
        (exists|i: int| 0 <= i < relays.len() && (#[trigger] relays[i].country) is Some)
            ==> stats_of(relays).n_countries >= 1,
{
    let n = relays.len() as int;
    lemma_role_counts_are_sizes(relays, n);
    lemma_roles_partition(relays, n);
    lemma_countries_are_given_codes(relays, n);
    lemma_country_set_finite(relays, n);
    if exists|i: int| 0 <= i < relays.len() && (#[trigger] relays[i].country) is Some {
        let i = choose|i: int| 0 <= i < relays.len() && (#[trigger] relays[i].country) is Some;
        let s = relays[i].country->0;
        assert(country_set(relays, n).contains(s@));
        vstd::set_lib::lemma_set_empty_equivalency_len(country_set(relays, n));
    }
}

} // verus!
