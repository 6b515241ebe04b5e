//! Which relays the map draws, and in which order.
//!
//! The map layer shows a relay when its type is switched on, the search
//! query (if any) matches its name, address or fingerprint, and it has a
//! position. Middles are drawn first so that guards and exits lie on top.

use std::sync::Arc;
use vstd::prelude::*;

use crate::cluster::num_counted;
use crate::relay::{is_notable, type_visible, OnionooResponse, Relay, RelayType};
use crate::text::{contains, contains_spec, to_lowercase, unicode_lowercase};

verus! {

/// What one frame of the map layer draws: the relays and the filters.
pub struct RelayMapPlugin {
    pub relays: Arc<OnionooResponse>,
    pub filter_guard: bool,
    pub filter_exit: bool,
    pub filter_middle: bool,
    pub search_query: String,
}

/// The lower-cased query `q` occurs in the relay's lower-cased display name,
/// in its primary address, or in its lower-cased fingerprint.
pub open spec fn query_matches(relay: Relay, q: Seq<char>) -> bool {
    ||| contains_spec(unicode_lowercase(relay.spec_display_name()), q)
    ||| (relay.spec_primary_ip() matches Some(ip) && contains_spec(ip, q))
    ||| contains_spec(unicode_lowercase(relay.fingerprint@), q)
}

impl RelayMapPlugin {
    /// The relay passes the type toggles, the search query, and has a position.
    pub open spec fn spec_should_show(self, relay: Relay) -> bool {
        &&& type_visible(
            relay.spec_relay_type(),
            self.filter_guard,
            self.filter_exit,
            self.filter_middle,
        )
        &&& (self.search_query@.len() == 0 || query_matches(
            relay,
            unicode_lowercase(self.search_query@),
        ))
        &&& relay.spec_position() is Some
    }

    /// Searching reads the display name of a relay whose type is switched
    /// on, which must then be defined.
    pub open spec fn can_search(self, relay: Relay) -> bool {
        self.search_query@.len() != 0 && type_visible(
            relay.spec_relay_type(),
            self.filter_guard,
            self.filter_exit,
            self.filter_middle,
        ) ==> relay.display_name_defined()
    }

    /// Relay `i` of the data is drawn.
    pub open spec fn shown(self, i: int) -> bool {
        self.spec_should_show(self.relays.relays@[i])
    }

    /// Indices of the first `n` relays drawn in the pass for notable
    /// (`true`) or middle (`false`) relays, in increasing order.
    pub open spec fn pass_indices(self, notable: bool, n: int) -> Seq<usize>
        decreases n,
    {
        if n <= 0 {
            Seq::empty()
        } else {
            let prev = self.pass_indices(notable, n - 1);
            if self.shown(n - 1) && is_notable(self.relays.relays@[n - 1].spec_relay_type())
                == notable {
                prev.push((n - 1) as usize)
            } else {
                prev
            }
        }
    }

    /// Whether `should_show` may be called on `relay`.
    pub fn searchable(&self, relay: &Relay) -> (b: bool)
        ensures
            b == self.can_search(*relay),
    {
        self.search_query.as_str().is_empty() || !relay.relay_type().visible_under(
            self.filter_guard,
            self.filter_exit,
            self.filter_middle,
        ) || relay.name_defined()
    }

    pub fn should_show(&self, relay: &Relay) -> (r: bool)
        requires
            self.can_search(*relay),
        ensures
            r == self.spec_should_show(*relay),
    {
        let rt = relay.relay_type();
        if !rt.visible_under(self.filter_guard, self.filter_exit, self.filter_middle) {
            return false;
        }
        if !self.search_query.as_str().is_empty() {
            let q = to_lowercase(self.search_query.as_str());
            let name = to_lowercase(relay.display_name().as_str());
            let nm = contains(name.as_str(), q.as_str());
            let im = match relay.primary_ip() {
                Some(ip) => contains(ip.as_str(), q.as_str()),
                None => false,
            };
            let fp = to_lowercase(relay.fingerprint.as_str());
            let fm = contains(fp.as_str(), q.as_str());
            if !nm && !im && !fm {
                return false;
            }
        }
        relay.position().is_some()
    }

    /// Indices of the relays to draw: every shown middle, then every shown
    /// guard, exit or guard+exit, each group in data order.
    pub fn draw_order(&self) -> (r: Vec<usize>)
        requires
            forall|i: int|
                0 <= i < self.relays.relays@.len() ==> #[trigger] self.can_search(
                    self.relays.relays@[i],
                ),
        ensures
            r@ == self.pass_indices(false, self.relays.relays@.len() as int) + self.pass_indices(
                true,
                self.relays.relays@.len() as int,
            ),
    {
        let relays = &self.relays.relays;
        let mut middles: Vec<usize> = Vec::new();
        let mut notables: Vec<usize> = Vec::new();
        let mut i: usize = 0;
        while i < relays.len()
            invariant
                relays@ == self.relays.relays@,
                forall|k: int| 0 <= k < relays@.len() ==> #[trigger] self.can_search(relays@[k]),
                i <= relays.len(),
                middles@ == self.pass_indices(false, i as int),
                notables@ == self.pass_indices(true, i as int),
            decreases relays.len() - i,
        {
            let relay = &relays[i];
            proof {
                assert(self.can_search(relays@[i as int]));
            }
            if self.should_show(relay) {
                if relay.relay_type() != RelayType::Middle {
                    notables.push(i);
                } else {
                    middles.push(i);
                }
            }
            i = i + 1;
        }
        middles.append(&mut notables);
        middles
    }
}

/// The drawn relay under the pointer: of the relays drawn in `order` whose
/// dot the pointer hits (`hits[k]` for `order[k]`), the last one, which is
/// painted on top; none when nothing is hit.
pub fn pick_last_hit(order: &Vec<usize>, hits: &Vec<bool>) -> (r: Option<usize>)
    requires
        hits.len() == order.len(),
    ensures
        r is None <==> forall|k: int| 0 <= k < hits.len() ==> !hits[k],
        r matches Some(idx) ==> exists|k: int|
            0 <= k < hits.len() && hits[k] && order[k] == idx && forall|m: int|
                k < m < hits.len() ==> !hits[m],
{
    let mut i: usize = hits.len();
    while i > 0 && !hits[i - 1]
        invariant
            i <= hits.len(),
            forall|m: int| i <= m < hits.len() ==> !hits[m],
        decreases i,
    {
        i = i - 1;
    }
    if i == 0 {
        None
    } else {
        Some(order[i - 1])
    }
}

/// Every drawn index is a shown relay of the right pass, and every shown
/// relay of that pass is drawn.
pub proof fn lemma_pass_members(p: RelayMapPlugin, notable: bool, n: int, k: usize)
    requires
        0 <= n <= p.relays.relays@.len(),
        n <= usize::MAX,
    ensures
        p.pass_indices(notable, n).contains(k) <==> (k < n && p.shown(k as int) && is_notable(
            p.relays.relays@[k as int].spec_relay_type(),
        ) == notable),
    decreases n,
{
    if n > 0 {
        lemma_pass_members(p, notable, n - 1, k);
        let prev = p.pass_indices(notable, n - 1);
        let x = (n - 1) as usize;
        if p.shown(n - 1) && is_notable(p.relays.relays@[n - 1].spec_relay_type()) == notable {
            let cur = prev.push(x);
            assert(cur[prev.len() as int] == x);
            if cur.contains(k) {
                let w = choose|w: int| 0 <= w < cur.len() && #[trigger] cur[w] == k;
                if w < prev.len() {
                    assert(prev[w] == k);
                }
            }
            if prev.contains(k) {
                let w = choose|w: int| 0 <= w < prev.len() && #[trigger] prev[w] == k;
                assert(cur[w] == k);
            }
        }
    }
}

/// The type toggles act independently: switching more of them on never
/// hides a relay that was shown.
pub proof fn lemma_toggles_monotone(p: RelayMapPlugin, q: RelayMapPlugin, relay: Relay)
    requires
        q.search_query@ == p.search_query@,
        p.filter_guard ==> q.filter_guard,
        p.filter_exit ==> q.filter_exit,
        p.filter_middle ==> q.filter_middle,
        p.spec_should_show(relay),
    ensures
        q.spec_should_show(relay),
{
}

/// With no search query, a relay is shown exactly when its type is switched
/// on and it has a position.
pub proof fn lemma_empty_query_filters_by_type(p: RelayMapPlugin, relay: Relay)
    requires
        p.search_query@.len() == 0,
    ensures
        p.spec_should_show(relay) == (type_visible(
            relay.spec_relay_type(),
            p.filter_guard,
            p.filter_exit,
            p.filter_middle,
        ) && relay.spec_position() is Some),
{
}

/// The bubbles of the clustered view hold exactly the relays the dot view
/// draws: the number of relays counted into clusters equals the number of
/// drawn indices.
pub proof fn lemma_bubbles_hold_drawn_relays(p: RelayMapPlugin, n: int)
    requires
        0 <= n <= p.relays.relays@.len(),
    ensures
        num_counted(p.relays.relays@, p, n)
            == p.pass_indices(false, n).len() + p.pass_indices(true, n).len(),
    decreases n,
{
    if n > 0 {
        lemma_bubbles_hold_drawn_relays(p, n - 1);
    }
}

/// Search matches the fingerprint without regard to case: with every type
/// switched on, a placed relay whose lower-cased fingerprint contains the
/// lower-cased query is shown.
pub proof fn lemma_search_finds_fingerprint(p: RelayMapPlugin, relay: Relay)
    requires
        p.filter_guard && p.filter_exit && p.filter_middle,
        relay.latitude is Some && relay.longitude is Some,
        contains_spec(unicode_lowercase(relay.fingerprint@), unicode_lowercase(p.search_query@)),
    ensures
        p.spec_should_show(relay),
{
}

/// Search matches the nickname without regard to case: with every type
/// switched on, a placed relay whose lower-cased nickname contains the
/// lower-cased query is shown.
pub proof fn lemma_search_finds_nickname(p: RelayMapPlugin, relay: Relay, nick: String)
    requires
        p.filter_guard && p.filter_exit && p.filter_middle,
        relay.latitude is Some && relay.longitude is Some,
        relay.nickname == Some(nick),
        contains_spec(unicode_lowercase(nick@), unicode_lowercase(p.search_query@)),
    ensures
        p.spec_should_show(relay),
{
}

/// Search matches the address as written: with every type switched on, a
/// placed relay whose first address is `host:port` (host not opening with
/// `[`, port without `:`) and whose host contains the lower-cased query is
/// shown.
pub proof fn lemma_search_finds_address(
    p: RelayMapPlugin,
    relay: Relay,
    host: Seq<char>,
    port: Seq<char>,
)
    requires
        p.filter_guard && p.filter_exit && p.filter_middle,
        relay.latitude is Some && relay.longitude is Some,
        relay.or_addresses matches Some(v) && v.len() > 0 && v[0]@ == host + seq![':'] + port,
        host.len() > 0 && host[0] != '[',
        forall|k: int| 0 <= k < port.len() ==> port[k] != ':',
        contains_spec(host, unicode_lowercase(p.search_query@)),
    ensures
        p.spec_should_show(relay),
{
    crate::relay::lemma_primary_ip_host_port(relay, host, port);
}

/// A query found in none of the three fields hides the relay.
pub proof fn lemma_search_misses(p: RelayMapPlugin, relay: Relay)
    requires
        p.search_query@.len() > 0,
        !contains_spec(
            unicode_lowercase(relay.spec_display_name()),
            unicode_lowercase(p.search_query@),
        ),
        !contains_spec(unicode_lowercase(relay.fingerprint@), unicode_lowercase(p.search_query@)),
        relay.spec_primary_ip() matches Some(ip) ==> !contains_spec(
            ip,
            unicode_lowercase(p.search_query@),
        ),
    ensures
        !p.spec_should_show(relay),
{
}

/// Each type follows its own toggle and no other: a Middle only the middle
/// toggle, an Exit only the exit toggle, a Guard or Guard+Exit only the
/// guard toggle. With its toggle off a relay is hidden; with it on, no
/// query and a position, it is shown; and two plugins that agree on that
/// toggle and on the query show it alike.
pub proof fn lemma_toggles_independent(p: RelayMapPlugin, q: RelayMapPlugin, relay: Relay)
    requires
        q.search_query@ == p.search_query@,
    ensures
        relay.spec_relay_type() == RelayType::Middle ==> {
            &&& (p.filter_middle == q.filter_middle ==> p.spec_should_show(relay)
                == q.spec_should_show(relay))
            &&& (!p.filter_middle ==> !p.spec_should_show(relay))
            &&& (p.filter_middle && p.search_query@.len() == 0 && relay.latitude is Some
                && relay.longitude is Some ==> p.spec_should_show(relay))
        },
        relay.spec_relay_type() == RelayType::Exit ==> {
            &&& (p.filter_exit == q.filter_exit ==> p.spec_should_show(relay)
                == q.spec_should_show(relay))
            &&& (!p.filter_exit ==> !p.spec_should_show(relay))
            &&& (p.filter_exit && p.search_query@.len() == 0 && relay.latitude is Some
                && relay.longitude is Some ==> p.spec_should_show(relay))
        },
        (relay.spec_relay_type() == RelayType::Guard || relay.spec_relay_type()
            == RelayType::GuardExit) ==> {
            &&& (p.filter_guard == q.filter_guard ==> p.spec_should_show(relay)
                == q.spec_should_show(relay))
            &&& (!p.filter_guard ==> !p.spec_should_show(relay))
            &&& (p.filter_guard && p.search_query@.len() == 0 && relay.latitude is Some
                && relay.longitude is Some ==> p.spec_should_show(relay))
        },
{
}

} // verus!
