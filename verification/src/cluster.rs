//! Spatial clustering of relays for low zoom levels.
//!
//! Relays are bucketed into grid cells and each occupied cell becomes one
//! count bubble. The renderer computes each relay's cell from its
//! coordinates; this module does the grouping and counting.

use vstd::prelude::*;

use crate::dashboard::{indices_where, lemma_indices_where_step};
use crate::map_plugin::RelayMapPlugin;
use crate::relay::{Relay, RelayType};

verus! {

/// One occupied grid cell: where it is and how many relays of each kind it holds.
#[derive(Clone, Copy, Debug, PartialEq, Eq, Structural)]
pub struct Cluster {
    /// Grid row and column of the cell.
    pub cell_lat: i32,
    pub cell_lon: i32,
    pub count: usize,
    pub n_guard: usize,
    pub n_exit: usize,
    pub n_middle: usize,
}

/// The type that colours a bubble: exits win ties with guards and middles,
/// guards win ties with middles.
pub open spec fn spec_dominant(n_guard: usize, n_exit: usize, n_middle: usize) -> RelayType {
    if n_exit >= n_guard && n_exit >= n_middle {
        RelayType::Exit
    } else if n_guard >= n_middle {
        RelayType::Guard
    } else {
        RelayType::Middle
    }
}

impl Cluster {
    /// The relay type most represented in the cell.
    pub fn dominant_type(&self) -> (r: RelayType)
        ensures
            r == spec_dominant(self.n_guard, self.n_exit, self.n_middle),
            r != RelayType::GuardExit,
            r == RelayType::Exit ==> self.n_exit >= self.n_guard && self.n_exit >= self.n_middle,
            r == RelayType::Guard ==> self.n_guard > self.n_exit && self.n_guard >= self.n_middle,
            r == RelayType::Middle ==> self.n_middle > self.n_exit && self.n_middle > self.n_guard,
    {
        if self.n_exit >= self.n_guard && self.n_exit >= self.n_middle {
            RelayType::Exit
        } else if self.n_guard >= self.n_middle {
            RelayType::Guard
        } else {
            RelayType::Middle
        }
    }
}

/// Relay `i` takes part in clustering: it has a position and its type is shown.
pub open spec fn counted(relays: Seq<Relay>, i: int, f: RelayMapPlugin) -> bool {
    f.spec_should_show(relays[i])
}

/// Guard and Guard+Exit relays count as guards in a bubble.
pub open spec fn is_guard_like(rt: RelayType) -> bool {
    rt == RelayType::Guard || rt == RelayType::GuardExit
}

/// Among the first `n` relays, those counted in `cell`: how many in all, and
/// how many guards (including guard+exits), exits and middles.
pub open spec fn cell_tally(
    relays: Seq<Relay>,
    cells: Seq<(i32, i32)>,
    f: RelayMapPlugin,
    cell: (i32, i32),
    n: int,
) -> (nat, nat, nat, nat)
    decreases n,
{
    if n <= 0 {
        (0, 0, 0, 0)
    } else {
        let t = cell_tally(relays, cells, f, cell, n - 1);
        if counted(relays, n - 1, f) && cells[n - 1] == cell {
            let rt = relays[n - 1].spec_relay_type();
            (
                t.0 + 1,
                if is_guard_like(rt) { t.1 + 1 } else { t.1 },
                if rt == RelayType::Exit { t.2 + 1 } else { t.2 },
                if rt == RelayType::Middle { t.3 + 1 } else { t.3 },
            )
        } else {
            t
        }
    }
}

/// Number of the first `n` relays that take part in clustering.
pub open spec fn num_counted(relays: Seq<Relay>, f: RelayMapPlugin, n: int) -> nat
    decreases n,
{
    if n <= 0 {
        0
    } else {
        num_counted(relays, f, n - 1) + if counted(relays, n - 1, f) {
            1nat
        } else {
            0nat
        }
    }
}

/// The cell a cluster stands for.
pub open spec fn cell_of(c: Cluster) -> (i32, i32) {
    (c.cell_lat, c.cell_lon)
}

/// The cluster's counters equal the tally.
pub open spec fn describes(c: Cluster, t: (nat, nat, nat, nat)) -> bool {
    &&& c.count == t.0
    &&& c.n_guard == t.1
    &&& c.n_exit == t.2
    &&& c.n_middle == t.3
}

/// Some cluster of `cs` stands for `cell`.
pub open spec fn has_cell(cs: Seq<Cluster>, cell: (i32, i32)) -> bool {
    exists|j: int| 0 <= j < cs.len() && cell_of(#[trigger] cs[j]) == cell
}

/// Sum of the relay counts of all clusters.
pub open spec fn sum_counts(cs: Seq<Cluster>) -> nat
    decreases cs.len(),
{
    if cs.len() == 0 {
        0
    } else {
        sum_counts(cs.drop_last()) + cs.last().count as nat
    }
}

/// Every relay counted in a cell is counted as exactly one of guard, exit
/// or middle, and a cell never holds more relays than were looked at.
pub proof fn lemma_tally_partition(
    relays: Seq<Relay>,
    cells: Seq<(i32, i32)>,
    f: RelayMapPlugin,
    cell: (i32, i32),
    n: int,
)
    ensures
        cell_tally(relays, cells, f, cell, n).0 == cell_tally(
            relays,
            cells,
            f,
            cell,
            n,
        ).1 + cell_tally(relays, cells, f, cell, n).2 + cell_tally(
            relays,
            cells,
            f,
            cell,
            n,
        ).3,
        n >= 0 ==> cell_tally(relays, cells, f, cell, n).0 <= n,
    decreases n,
{
    if n > 0 {
        lemma_tally_partition(relays, cells, f, cell, n - 1);
    }
}

proof fn lemma_sum_update(cs: Seq<Cluster>, j: int, c: Cluster)
    requires
        0 <= j < cs.len(),
    ensures
        sum_counts(cs.update(j, c)) + cs[j].count == sum_counts(cs) + c.count,
    decreases cs.len(),
{
    let u = cs.update(j, c);
    if j == cs.len() - 1 {
        assert(u.drop_last() =~= cs.drop_last());
    } else {
        assert(u.drop_last() =~= cs.drop_last().update(j, c));
        lemma_sum_update(cs.drop_last(), j, c);
    }
}

/// Groups the relays the map shows (type switched on, search query
/// matched, position present; see `RelayMapPlugin::spec_should_show`) into
/// one cluster per occupied cell. `cells[i]` is the grid cell of relay `i`
/// of the plugin's data; it is not read for relays that are not shown.
///
/// Each returned cluster stands for a distinct occupied cell and carries the
/// exact counts of the shown relays in that cell; every shown relay's cell
/// has a cluster; and the clusters' counts add up to the number of shown
/// relays. The order of the clusters is not specified.
pub fn build_clusters(
    plugin: &RelayMapPlugin,
    cells: &Vec<(i32, i32)>,
) -> (res: Vec<Cluster>)
    requires
        cells.len() == plugin.relays.relays@.len(),
        forall|i: int|
            0 <= i < plugin.relays.relays@.len() ==> #[trigger] plugin.can_search(
                plugin.relays.relays@[i],
            ),
    ensures
        forall|j: int|
            0 <= j < res.len() ==> describes(
                #[trigger] res[j],
                cell_tally(
                    plugin.relays.relays@,
                    cells@,
                    *plugin,
                    cell_of(res[j]),
                    plugin.relays.relays@.len() as int,
                ),
            ) && res[j].count > 0,
        forall|j: int|
            0 <= j < res.len() ==> #[trigger] res[j].count == res[j].n_guard + res[j].n_exit
                + res[j].n_middle,
        forall|j1: int, j2: int|
            0 <= j1 < res.len() && 0 <= j2 < res.len() && j1 != j2 ==> cell_of(#[trigger] res[j1])
                != cell_of(#[trigger] res[j2]),
        forall|i: int|
            0 <= i < plugin.relays.relays@.len() && #[trigger] counted(
                plugin.relays.relays@,
                i,
                *plugin,
            ) ==> has_cell(res@, cells@[i]),
        sum_counts(res@) == num_counted(
            plugin.relays.relays@,
            *plugin,
            plugin.relays.relays@.len() as int,
        ),
        clusters_of(res@, plugin.relays.relays@, cells@, *plugin),
{
    let relays = &plugin.relays.relays;
    let ghost rs = relays@;
    let ghost cs = cells@;
    let mut clusters: Vec<Cluster> = Vec::new();
    let mut i: usize = 0;
    while i < relays.len()
        invariant
            rs == relays@,
            cs == cells@,
            cells.len() == relays.len(),
            i <= relays.len(),
            relays@ == plugin.relays.relays@,
            forall|k: int| 0 <= k < relays@.len() ==> #[trigger] plugin.can_search(relays@[k]),
            forall|j: int|
                0 <= j < clusters.len() ==> describes(
                    #[trigger] clusters[j],
                    cell_tally(
                        rs,
                        cs,
                        *plugin,
                        cell_of(clusters[j]),
                        i as int,
                    ),
                ) && clusters[j].count > 0,
            forall|j1: int, j2: int|
                0 <= j1 < clusters.len() && 0 <= j2 < clusters.len() && j1 != j2 ==> cell_of(
                    #[trigger] clusters[j1],
                ) != cell_of(#[trigger] clusters[j2]),
            forall|k: int|
                0 <= k < i && #[trigger] counted(rs, k, *plugin)
                    ==> has_cell(clusters@, cs[k]),
            sum_counts(clusters@) == num_counted(
                rs,
                *plugin,
                i as int,
            ),
        decreases relays.len() - i,
    {
        let relay = &relays[i];
        proof {
            assert(plugin.can_search(relays@[i as int]));
        }
        let visible = plugin.should_show(relay);
        let ghost old_clusters = clusters@;
        proof {
            assert(visible == counted(rs, i as int, *plugin));
        }
        if visible {
            let rt = relay.relay_type();
            let cell = cells[i];
            let mut j: usize = 0;
            while j < clusters.len() && !(clusters[j].cell_lat == cell.0
                && clusters[j].cell_lon == cell.1)
                invariant
                    j <= clusters.len(),
                    forall|k: int| 0 <= k < j ==> cell_of(#[trigger] clusters[k]) != cell,
                decreases clusters.len() - j,
            {
                j = j + 1;
            }
            if j < clusters.len() {
                let old = clusters[j];
                proof {
                    lemma_tally_partition(
                        rs,
                        cs,
                        *plugin,
                        cell,
                        i as int,
                    );
                }
                let updated = Cluster {
                    cell_lat: old.cell_lat,
                    cell_lon: old.cell_lon,
                    count: old.count + 1,
                    n_guard: if rt == RelayType::Guard || rt == RelayType::GuardExit {
                        old.n_guard + 1
                    } else {
                        old.n_guard
                    },
                    n_exit: if rt == RelayType::Exit {
                        old.n_exit + 1
                    } else {
                        old.n_exit
                    },
                    n_middle: if rt == RelayType::Middle {
                        old.n_middle + 1
                    } else {
                        old.n_middle
                    },
                };
                clusters.set(j, updated);
                proof {
                    lemma_sum_update(old_clusters, j as int, updated);
                    assert forall|k: int|
                        0 <= k <= i && #[trigger] counted(
                            rs,
                            k,
                            *plugin,
                        ) implies has_cell(clusters@, cs[k]) by {
                        if k < i {
                            let w = choose|w: int|
                                0 <= w < old_clusters.len() && cell_of(#[trigger] old_clusters[w])
                                    == cs[k];
                            assert(cell_of(clusters@[w]) == cs[k]);
                        } else {
                            assert(cell_of(clusters@[j as int]) == cs[k]);
                        }
                    }
                }
            } else {
                let fresh = Cluster {
                    cell_lat: cell.0,
                    cell_lon: cell.1,
                    count: 1,
                    n_guard: if rt == RelayType::Guard || rt == RelayType::GuardExit {
                        1
                    } else {
                        0
                    },
                    n_exit: if rt == RelayType::Exit {
                        1
                    } else {
                        0
                    },
                    n_middle: if rt == RelayType::Middle {
                        1
                    } else {
                        0
                    },
                };
                proof {
                    assert(cell_tally(
                        rs,
                        cs,
                        *plugin,
                        cell,
                        i as int,
                    ) == (0nat, 0nat, 0nat, 0nat)) by {
                        lemma_tally_absent(
                            rs,
                            cs,
                            *plugin,
                            cell,
                            i as int,
                            old_clusters,
                        );
                    }
                }
                clusters.push(fresh);
                proof {
                    assert(clusters@.drop_last() =~= old_clusters);
                    assert forall|k: int|
                        0 <= k <= i && #[trigger] counted(
                            rs,
                            k,
                            *plugin,
                        ) implies has_cell(clusters@, cs[k]) by {
                        if k < i {
                            let w = choose|w: int|
                                0 <= w < old_clusters.len() && cell_of(#[trigger] old_clusters[w])
                                    == cs[k];
                            assert(cell_of(clusters@[w]) == cs[k]);
                        } else {
                            assert(cell_of(clusters@[old_clusters.len() as int]) == cs[k]);
                        }
                    }
                }
            }
        } else {
            proof {
                assert forall|k: int|
                    0 <= k <= i && #[trigger] counted(
                        rs,
                        k,
                        *plugin,
                    ) implies has_cell(clusters@, cs[k]) by {
                }
            }
        }
        i = i + 1;
    }
    proof {
        assert forall|j: int| 0 <= j < clusters.len() implies #[trigger] clusters[j].count
            == clusters[j].n_guard + clusters[j].n_exit + clusters[j].n_middle by {
            lemma_tally_partition(
                rs,
                cs,
                *plugin,
                cell_of(clusters[j]),
                i as int,
            );
        }
    }
    clusters
}

/// A cell that no cluster stands for has counted no relay yet, given that
/// every counted relay's cell has a cluster.
proof fn lemma_tally_absent(
    relays: Seq<Relay>,
    cells: Seq<(i32, i32)>,
    f: RelayMapPlugin,
    cell: (i32, i32),
    n: int,
    cs: Seq<Cluster>,
)
    requires
        0 <= n <= relays.len(),
        forall|k: int| 0 <= k < cs.len() ==> cell_of(#[trigger] cs[k]) != cell,
        forall|k: int|
            0 <= k < n && #[trigger] counted(relays, k, f) ==> has_cell(cs, cells[k]),
    ensures
        cell_tally(relays, cells, f, cell, n) == (0nat, 0nat, 0nat, 0nat),
    decreases n,
{
    if n > 0 {
        lemma_tally_absent(relays, cells, f, cell, n - 1, cs);
        if counted(relays, n - 1, f) && cells[n - 1] == cell {
            assert(has_cell(cs, cells[n - 1]));
        }
    }
}

/// The first `n` relays that have a position, each paired with its cell.
pub open spec fn placed(relays: Seq<Relay>, cells: Seq<(i32, i32)>, n: int) -> Seq<
    (Relay, (i32, i32)),
>
    decreases n,
{
    if n <= 0 {
        Seq::empty()
    } else if relays[n - 1].spec_position() is Some {
        placed(relays, cells, n - 1).push((relays[n - 1], cells[n - 1]))
    } else {
        placed(relays, cells, n - 1)
    }
}

/// What one placed relay adds to the tally of `cell`.
pub open spec fn contribution(
    p: (Relay, (i32, i32)),
    f: RelayMapPlugin,
    cell: (i32, i32),
) -> (nat, nat, nat, nat) {
    let rt = p.0.spec_relay_type();
    if f.spec_should_show(p.0) && p.1 == cell {
        (
            1,
            if is_guard_like(rt) { 1 } else { 0 },
            if rt == RelayType::Exit { 1 } else { 0 },
            if rt == RelayType::Middle { 1 } else { 0 },
        )
    } else {
        (0, 0, 0, 0)
    }
}

pub open spec fn plus(a: (nat, nat, nat, nat), b: (nat, nat, nat, nat)) -> (nat, nat, nat, nat) {
    (a.0 + b.0, a.1 + b.1, a.2 + b.2, a.3 + b.3)
}

/// The tally of `cell` over a sequence of placed relays.
pub open spec fn pair_tally(
    ps: Seq<(Relay, (i32, i32))>,
    f: RelayMapPlugin,
    cell: (i32, i32),
) -> (nat, nat, nat, nat)
    decreases ps.len(),
{
    if ps.len() == 0 {
        (0, 0, 0, 0)
    } else {
        plus(pair_tally(ps.drop_last(), f, cell), contribution(ps.last(), f, cell))
    }
}

/// The tally over relays equals the tally over their placed pairs.
proof fn lemma_tally_of_placed(
    relays: Seq<Relay>,
    cells: Seq<(i32, i32)>,
    f: RelayMapPlugin,
    cell: (i32, i32),
    n: int,
)
    requires
        0 <= n <= relays.len(),
    ensures
        cell_tally(relays, cells, f, cell, n) == pair_tally(
            placed(relays, cells, n),
            f,
            cell,
        ),
    decreases n,
{
    if n > 0 {
        lemma_tally_of_placed(relays, cells, f, cell, n - 1);
        let prev = placed(relays, cells, n - 1);
        if relays[n - 1].spec_position() is Some {
            let cur = prev.push((relays[n - 1], cells[n - 1]));
            assert(cur.drop_last() =~= prev);
        }
    }
}

/// Taking one pair out of a sequence takes its contribution out of the tally.
proof fn lemma_tally_remove(
    ps: Seq<(Relay, (i32, i32))>,
    j: int,
    f: RelayMapPlugin,
    cell: (i32, i32),
)
    requires
        0 <= j < ps.len(),
    ensures
        pair_tally(ps, f, cell) == plus(
            pair_tally(ps.remove(j), f, cell),
            contribution(ps[j], f, cell),
        ),
    decreases ps.len(),
{
    if j == ps.len() - 1 {
        assert(ps.remove(j) =~= ps.drop_last());
    } else {
        let r = ps.remove(j);
        assert(r.drop_last() =~= ps.drop_last().remove(j));
        assert(r.last() == ps.last());
        lemma_tally_remove(ps.drop_last(), j, f, cell);
    }
}

/// Sequences with the same pairs, in any order, have the same tally.
proof fn lemma_tally_permutation(
    s1: Seq<(Relay, (i32, i32))>,
    s2: Seq<(Relay, (i32, i32))>,
    f: RelayMapPlugin,
    cell: (i32, i32),
)
    requires
        s1.to_multiset() == s2.to_multiset(),
    ensures
        pair_tally(s1, f, cell) == pair_tally(s2, f, cell),
    decreases s1.len(),
{
    broadcast use vstd::seq_lib::group_to_multiset_ensures;
    broadcast use vstd::multiset::group_multiset_axioms;

    s1.to_multiset_ensures();
    s2.to_multiset_ensures();
    if s1.len() == 0 {
        assert(s2.len() == 0);
    } else {
        let x = s1.last();
        let rest = s1.drop_last();
        assert(rest.push(x) =~= s1);
        rest.to_multiset_ensures();
        assert(s1.to_multiset() =~= rest.to_multiset().insert(x));
        assert(s2.to_multiset().count(x) > 0);
        assert(s2.contains(x));
        let j = choose|j: int| 0 <= j < s2.len() && s2[j] == x;
        assert(s2.remove(j).to_multiset() =~= s2.to_multiset().remove(x));
        assert(rest.to_multiset() =~= s1.to_multiset().remove(x));
        lemma_tally_permutation(rest, s2.remove(j), f, cell);
        lemma_tally_remove(s2, j, f, cell);
    }
}

/// The relays that have a position, each with its cell, are the same in
/// both inputs, up to order; relays without a position may differ freely.
pub open spec fn same_placed_relays(
    r1: Seq<Relay>,
    c1: Seq<(i32, i32)>,
    r2: Seq<Relay>,
    c2: Seq<(i32, i32)>,
) -> bool {
    placed(r1, c1, r1.len() as int).to_multiset() == placed(r2, c2, r2.len() as int).to_multiset()
}

/// Cell tallies depend neither on the order of the relays nor on relays
/// without a position.
pub proof fn lemma_tally_ignores_order(
    r1: Seq<Relay>,
    c1: Seq<(i32, i32)>,
    r2: Seq<Relay>,
    c2: Seq<(i32, i32)>,
    f: RelayMapPlugin,
    cell: (i32, i32),
)
    requires
        same_placed_relays(r1, c1, r2, c2),
    ensures
        cell_tally(r1, c1, f, cell, r1.len() as int) == cell_tally(
            r2,
            c2,
            f,
            cell,
            r2.len() as int,
        ),
{
    lemma_tally_of_placed(r1, c1, f, cell, r1.len() as int);
    lemma_tally_of_placed(r2, c2, f, cell, r2.len() as int);
    lemma_tally_permutation(
        placed(r1, c1, r1.len() as int),
        placed(r2, c2, r2.len() as int),
        f,
        cell,
    );
}

/// A cell with a positive tally holds some counted relay.
proof fn lemma_tally_witness(
    relays: Seq<Relay>,
    cells: Seq<(i32, i32)>,
    f: RelayMapPlugin,
    cell: (i32, i32),
    n: int,
)
    requires
        cell_tally(relays, cells, f, cell, n).0 > 0,
    ensures
        exists|i: int|
            0 <= i < n && #[trigger] counted(relays, i, f) && cells[i] == cell,
    decreases n,
{
    if n > 0 {
        if counted(relays, n - 1, f) && cells[n - 1] == cell {
        } else {
            lemma_tally_witness(relays, cells, f, cell, n - 1);
        }
    }
}

/// `res` is a valid clustering of the relays: one cluster per occupied
/// cell, with that cell's exact counts, and every counted relay covered.
pub open spec fn clusters_of(
    res: Seq<Cluster>,
    relays: Seq<Relay>,
    cells: Seq<(i32, i32)>,
    f: RelayMapPlugin,
) -> bool {
    &&& forall|j: int|
        0 <= j < res.len() ==> describes(
            #[trigger] res[j],
            cell_tally(relays, cells, f, cell_of(res[j]), relays.len() as int),
        ) && res[j].count > 0
    &&& forall|j1: int, j2: int|
        0 <= j1 < res.len() && 0 <= j2 < res.len() && j1 != j2 ==> cell_of(#[trigger] res[j1])
            != cell_of(#[trigger] res[j2])
    &&& forall|i: int|
        0 <= i < relays.len() && #[trigger] counted(relays, i, f) ==> has_cell(
            res,
            cells[i],
        )
}

proof fn lemma_clusters_contained(
    res1: Seq<Cluster>,
    r1: Seq<Relay>,
    c1: Seq<(i32, i32)>,
    res2: Seq<Cluster>,
    r2: Seq<Relay>,
    c2: Seq<(i32, i32)>,
    f: RelayMapPlugin,
    k: int,
)
    requires
        clusters_of(res1, r1, c1, f),
        clusters_of(res2, r2, c2, f),
        same_placed_relays(r1, c1, r2, c2),
        r2.len() <= c2.len(),
        0 <= k < res1.len(),
    ensures
        res2.contains(res1[k]),
{
    let x = res1[k];
    let cell = cell_of(x);
    assert(describes(res1[k], cell_tally(r1, c1, f, cell, r1.len() as int)));
    lemma_tally_ignores_order(r1, c1, r2, c2, f, cell);
    lemma_tally_witness(r2, c2, f, cell, r2.len() as int);
    let i = choose|i: int|
        0 <= i < r2.len() && #[trigger] counted(r2, i, f) && c2[i] == cell;
    assert(has_cell(res2, c2[i]));
    let w = choose|w: int| 0 <= w < res2.len() && cell_of(#[trigger] res2[w]) == c2[i];
    assert(describes(res2[w], cell_tally(r2, c2, f, cell_of(res2[w]), r2.len() as int)));
    assert(res2[w] == x);
}

/// Clustering ignores input order and relays without a position: inputs
/// with the same positioned relays (each with its cell) give the same
/// clusters, as a multiset.
pub proof fn lemma_clusters_ignore_order(
    res1: Seq<Cluster>,
    r1: Seq<Relay>,
    c1: Seq<(i32, i32)>,
    res2: Seq<Cluster>,
    r2: Seq<Relay>,
    c2: Seq<(i32, i32)>,
    f: RelayMapPlugin,
)
    requires
        r1.len() == c1.len(),
        r2.len() == c2.len(),
        clusters_of(res1, r1, c1, f),
        clusters_of(res2, r2, c2, f),
        same_placed_relays(r1, c1, r2, c2),
    ensures
        res1.to_multiset() == res2.to_multiset(),
{
    broadcast use vstd::seq_lib::group_to_multiset_ensures;

    assert forall|k: int| 0 <= k < res1.len() implies res2.contains(#[trigger] res1[k]) by {
        lemma_clusters_contained(res1, r1, c1, res2, r2, c2, f, k);
    }
    assert forall|k: int| 0 <= k < res2.len() implies res1.contains(#[trigger] res2[k]) by {
        lemma_clusters_contained(res2, r2, c2, res1, r1, c1, f, k);
    }
    assert(res1.no_duplicates());
    assert(res2.no_duplicates());
    res1.lemma_multiset_has_no_duplicates();
    res2.lemma_multiset_has_no_duplicates();
    res1.to_multiset_ensures();
    res2.to_multiset_ensures();
    assert forall|a: Cluster| res1.to_multiset().count(a) == res2.to_multiset().count(a) by {
        if res1.contains(a) {
            let k = choose|k: int| 0 <= k < res1.len() && res1[k] == a;
            assert(res2.contains(res1[k]));
        } else if res2.contains(a) {
            let k = choose|k: int| 0 <= k < res2.len() && res2[k] == a;
            assert(res1.contains(res2[k]));
        }
    }
    assert(res1.to_multiset() =~= res2.to_multiset());
}

/// The first `n` relays that have a position, in order.
pub open spec fn positioned_relays(relays: Seq<Relay>, n: int) -> Seq<Relay>
    decreases n,
{
    if n <= 0 {
        Seq::empty()
    } else if relays[n - 1].spec_position() is Some {
        positioned_relays(relays, n - 1).push(relays[n - 1])
    } else {
        positioned_relays(relays, n - 1)
    }
}

/// Every positioned relay's cell is `cell_fn` of its position.
pub open spec fn cells_follow(
    relays: Seq<Relay>,
    cells: Seq<(i32, i32)>,
    cell_fn: spec_fn((u64, u64)) -> (i32, i32),
) -> bool {
    forall|i: int|
        0 <= i < relays.len() && (#[trigger] relays[i]).spec_position() is Some ==> cells[i]
            == cell_fn(relays[i].spec_position()->0)
}

/// A relay paired with the cell of its position.
pub open spec fn with_cell(cell_fn: spec_fn((u64, u64)) -> (i32, i32)) -> spec_fn(Relay) -> (
    Relay,
    (i32, i32),
) {
    |r: Relay| (r, cell_fn(r.spec_position()->0))
}

proof fn lemma_placed_by_position(
    relays: Seq<Relay>,
    cells: Seq<(i32, i32)>,
    cell_fn: spec_fn((u64, u64)) -> (i32, i32),
    n: int,
)
    requires
        0 <= n <= relays.len(),
        cells_follow(relays, cells, cell_fn),
    ensures
        placed(relays, cells, n) == positioned_relays(relays, n).map_values(with_cell(cell_fn)),
    decreases n,
{
    if n > 0 {
        lemma_placed_by_position(relays, cells, cell_fn, n - 1);
        let prev = positioned_relays(relays, n - 1);
        if relays[n - 1].spec_position() is Some {
            assert(cells[n - 1] == cell_fn(relays[n - 1].spec_position()->0));
            assert(prev.push(relays[n - 1]).map_values(with_cell(cell_fn)) =~= prev.map_values(
                with_cell(cell_fn),
            ).push((relays[n - 1], cells[n - 1])));
        }
    }
}

proof fn lemma_multiset_map<A, B>(s1: Seq<A>, s2: Seq<A>, h: spec_fn(A) -> B)
    requires
        s1.to_multiset() == s2.to_multiset(),
    ensures
        s1.map_values(h).to_multiset() == s2.map_values(h).to_multiset(),
    decreases s1.len(),
{
    broadcast use vstd::seq_lib::group_to_multiset_ensures;
    broadcast use vstd::multiset::group_multiset_axioms;

    s1.to_multiset_ensures();
    s2.to_multiset_ensures();
    s1.map_values(h).to_multiset_ensures();
    s2.map_values(h).to_multiset_ensures();
    if s1.len() == 0 {
        assert(s2.len() == 0);
        assert(s1.map_values(h) =~= s2.map_values(h));
    } else {
        let x = s1.last();
        let rest = s1.drop_last();
        assert(rest.push(x) =~= s1);
        rest.to_multiset_ensures();
        assert(s2.to_multiset().count(x) > 0);
        assert(s2.contains(x));
        let j = choose|j: int| 0 <= j < s2.len() && s2[j] == x;
        let t = s2.remove(j);
        assert(t.to_multiset() =~= s2.to_multiset().remove(x));
        assert(rest.to_multiset() =~= s1.to_multiset().remove(x));
        lemma_multiset_map(rest, t, h);
        rest.map_values(h).to_multiset_ensures();
        assert(s1.map_values(h) =~= rest.map_values(h).push(h(x)));
        assert(s2.map_values(h).remove(j) =~= t.map_values(h));
        assert(s2.map_values(h)[j] == h(x));
        assert(s1.map_values(h).to_multiset() =~= t.map_values(h).to_multiset().insert(h(x)));
        assert(t.map_values(h).to_multiset() =~= s2.map_values(h).to_multiset().remove(h(x)));
        assert(s2.map_values(h).to_multiset().count(h(x)) > 0);
        assert(s1.map_values(h).to_multiset() =~= s2.map_values(h).to_multiset());
    }
}

/// Clustering ignores input order and relays without a position: when each
/// relay's cell is a function of its position, inputs whose positioned
/// relays are the same up to order give the same clusters, as a multiset.
pub proof fn lemma_clustering_ignores_order(
    res1: Seq<Cluster>,
    r1: Seq<Relay>,
    c1: Seq<(i32, i32)>,
    res2: Seq<Cluster>,
    r2: Seq<Relay>,
    c2: Seq<(i32, i32)>,
    f: RelayMapPlugin,
    cell_fn: spec_fn((u64, u64)) -> (i32, i32),
)
    requires
        r1.len() == c1.len(),
        r2.len() == c2.len(),
        cells_follow(r1, c1, cell_fn),
        cells_follow(r2, c2, cell_fn),
        positioned_relays(r1, r1.len() as int).to_multiset() == positioned_relays(
            r2,
            r2.len() as int,
        ).to_multiset(),
        clusters_of(res1, r1, c1, f),
        clusters_of(res2, r2, c2, f),
    ensures
        res1.to_multiset() == res2.to_multiset(),
{
    lemma_placed_by_position(r1, c1, cell_fn, r1.len() as int);
    lemma_placed_by_position(r2, c2, cell_fn, r2.len() as int);
    lemma_multiset_map(
        positioned_relays(r1, r1.len() as int),
        positioned_relays(r2, r2.len() as int),
        with_cell(cell_fn),
    );
    lemma_clusters_ignore_order(res1, r1, c1, res2, r2, c2, f);
}

/// Each cell's tally counts the shown relays in that cell; among them the
/// guards are those with a Guard flag, the exits those with an Exit flag
/// and no Guard flag, and the middles those with neither flag.
pub proof fn lemma_tally_counts_by_flags(
    relays: Seq<Relay>,
    cells: Seq<(i32, i32)>,
    f: RelayMapPlugin,
    cell: (i32, i32),
    n: int,
)
    requires
        0 <= n <= relays.len(),
    ensures
        indices_where(n, |i: int| counted(relays, i, f) && cells[i] == cell).finite(),
        cell_tally(relays, cells, f, cell, n).0 == indices_where(
            n,
            |i: int| counted(relays, i, f) && cells[i] == cell,
        ).len(),
        cell_tally(relays, cells, f, cell, n).1 == indices_where(
            n,
            |i: int| counted(relays, i, f) && cells[i] == cell && relays[i].spec_is_guard(),
        ).len(),
        cell_tally(relays, cells, f, cell, n).2 == indices_where(
            n,
            |i: int|
                counted(relays, i, f) && cells[i] == cell && relays[i].spec_is_exit()
                    && !relays[i].spec_is_guard(),
        ).len(),
        cell_tally(relays, cells, f, cell, n).3 == indices_where(
            n,
            |i: int|
                counted(relays, i, f) && cells[i] == cell && !relays[i].spec_is_exit()
                    && !relays[i].spec_is_guard(),
        ).len(),
    decreases n,
{
    let p0 = |i: int| counted(relays, i, f) && cells[i] == cell;
    let p1 = |i: int| counted(relays, i, f) && cells[i] == cell && relays[i].spec_is_guard();
    let p2 = |i: int|
        counted(relays, i, f) && cells[i] == cell && relays[i].spec_is_exit()
            && !relays[i].spec_is_guard();
    let p3 = |i: int|
        counted(relays, i, f) && cells[i] == cell && !relays[i].spec_is_exit()
            && !relays[i].spec_is_guard();
    if n == 0 {
        assert(indices_where(n, p0) =~= Set::empty());
        assert(indices_where(n, p1) =~= Set::empty());
        assert(indices_where(n, p2) =~= Set::empty());
        assert(indices_where(n, p3) =~= Set::empty());
    } else {
        lemma_tally_counts_by_flags(relays, cells, f, cell, n - 1);
        lemma_indices_where_step(n, p0);
        lemma_indices_where_step(n, p1);
        lemma_indices_where_step(n, p2);
        lemma_indices_where_step(n, p3);
        assert(indices_where(n - 1, p1).subset_of(indices_where(n - 1, p0)));
        assert(indices_where(n - 1, p2).subset_of(indices_where(n - 1, p0)));
        assert(indices_where(n - 1, p3).subset_of(indices_where(n - 1, p0)));
        vstd::set_lib::lemma_len_subset(indices_where(n - 1, p1), indices_where(n - 1, p0));
        vstd::set_lib::lemma_len_subset(indices_where(n - 1, p2), indices_where(n - 1, p0));
        vstd::set_lib::lemma_len_subset(indices_where(n - 1, p3), indices_where(n - 1, p0));
    }
}

} // verus!
