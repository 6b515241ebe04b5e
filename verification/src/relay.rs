//! Relay data model: one entry of the Onionoo `/details` response, its
//! classification by flags, and the fields the dashboard derives from it.

use vstd::prelude::*;
use vstd::utf8::{decode_utf8, encode_utf8, is_char_boundary};
use egui::Color32;

use crate::text::{
    chars_of, count_leading, eq_ignore_ascii_case, eq_ignore_ascii_case_spec, find_first,
    find_last, first_index_of, last_index_of, leading_run,
};

verus! {

/// Makes `egui::Color32` known to Verus as an opaque type.
#[verifier::external_type_specification]
#[verifier::external_body]
pub struct ExColor32(Color32);

/// The opaque colour `egui::Color32::from_rgb(r, g, b)` builds.
pub uninterp spec fn rgb_color(r: u8, g: u8, b: u8) -> Color32;

/// Builds an opaque colour with `egui::Color32::from_rgb`.
///
/// `Color32` is opaque here, so the contract names the result by its three
/// arguments (`rgb_color`). `from_rgb` stores the components `[r, g, b, 255]`,
/// so two different triples never give the same colour; the second clause
/// states that. The component bytes themselves are not stated.
#[verifier::external_body]
fn color_from_rgb(r: u8, g: u8, b: u8) -> (c: Color32)
    ensures
        c == rgb_color(r, g, b),
        forall|r2: u8, g2: u8, b2: u8|
            #[trigger] rgb_color(r2, g2, b2) == c ==> r2 == r && g2 == g && b2 == b,
{
    Color32::from_rgb(r, g, b)
}

/// The whole `/details` document: the list of relays.
#[derive(Clone, Debug)]
pub struct OnionooResponse {
    pub relays: Vec<Relay>,
}

/// One relay as Onionoo describes it.
///
/// `latitude` and `longitude` hold the IEEE-754 bit pattern of the
/// coordinate (`f64::to_bits`), so the model carries them unchanged while
/// all arithmetic on them stays with the renderer.
#[derive(Clone, Debug)]
pub struct Relay {
    pub nickname: Option<String>,
    pub fingerprint: String,
    pub flags: Option<Vec<String>>,
    pub or_addresses: Option<Vec<String>>,
    pub latitude: Option<u64>,
    pub longitude: Option<u64>,
    pub country: Option<String>,
    pub country_name: Option<String>,
    pub as_name: Option<String>,
    pub bandwidth_rate: Option<u64>,
    pub observed_bandwidth: Option<u64>,
    pub platform: Option<String>,
    pub contact: Option<String>,
    pub exit_policy: Option<Vec<String>>,
    pub first_seen: Option<String>,
    pub last_seen: Option<String>,
}

/// The role a relay plays in a circuit, as its flags classify it.
#[derive(Clone, Copy, Debug, PartialEq, Eq, Structural)]
pub enum RelayType {
    Guard,
    Exit,
    GuardExit,
    Middle,
}

/// Classification by the two flags that matter.
pub open spec fn type_of(guard: bool, exit: bool) -> RelayType {
    if guard && exit {
        RelayType::GuardExit
    } else if guard {
        RelayType::Guard
    } else if exit {
        RelayType::Exit
    } else {
        RelayType::Middle
    }
}

/// Whether a relay of type `rt` is shown under the three type toggles.
/// Guard+Exit relays follow the guard toggle.
pub open spec fn type_visible(rt: RelayType, guard: bool, exit: bool, middle: bool) -> bool {
    match rt {
        RelayType::Guard | RelayType::GuardExit => guard,
        RelayType::Exit => exit,
        RelayType::Middle => middle,
    }
}

/// Guards, exits and guard+exit relays are drawn above middles.
pub open spec fn is_notable(rt: RelayType) -> bool {
    rt != RelayType::Middle
}

/// The address with its port removed: `"1.2.3.4:9001"` gives `"1.2.3.4"`,
/// `"[dead::1]:443"` gives `"dead::1"`. For a bracketed address this is the
/// text before the first `]` with all leading `[` removed; otherwise it is
/// the text before the last `:`, and there is none without a `:`.
pub open spec fn strip_port(a: Seq<char>) -> Option<Seq<char>> {
    if a.len() > 0 && a[0] == '[' {
        let host = a.subrange(0, first_index_of(a, ']') as int);
        Some(host.subrange(leading_run(host, '[') as int, host.len() as int))
    } else {
        match last_index_of(a, ':') {
            Some(p) => Some(a.subrange(0, p as int)),
            None => None,
        }
    }
}

impl OnionooResponse {
    /// Indices of the first `n` relays that have a position, in order.
    pub open spec fn positioned_upto(self, n: int) -> Seq<usize>
        decreases n,
    {
        if n <= 0 {
            Seq::empty()
        } else if self.relays@[n - 1].spec_position() is Some {
            self.positioned_upto(n - 1).push((n - 1) as usize)
        } else {
            self.positioned_upto(n - 1)
        }
    }

    /// Indices of the relays that have a position, in data order: the
    /// relays the side panel lists.
    pub fn positioned_indices(&self) -> (r: Vec<usize>)
        ensures
            r@ == self.positioned_upto(self.relays@.len() as int),
    {
        let mut r: Vec<usize> = Vec::new();
        let mut i: usize = 0;
        while i < self.relays.len()
            invariant
                i <= self.relays.len(),
                r@ == self.positioned_upto(i as int),
            decreases self.relays.len() - i,
        {
            if self.relays[i].position().is_some() {
                r.push(i);
            }
            i = i + 1;
        }
        r
    }
}

impl Relay {
    /// The flags Onionoo lists for this relay, empty when it lists none.
    pub open spec fn flag_list(self) -> Seq<String> {
        match self.flags {
            Some(v) => v@,
            None => Seq::empty(),
        }
    }

    /// Some listed flag equals `f` up to ASCII case.
    pub open spec fn spec_has_flag(self, f: Seq<char>) -> bool {
        exists|i: int|
            0 <= i < self.flag_list().len() && eq_ignore_ascii_case_spec(
                #[trigger] self.flag_list()[i]@,
                f,
            )
    }

    pub open spec fn spec_is_guard(self) -> bool {
        self.spec_has_flag("Guard"@)
    }

    pub open spec fn spec_is_exit(self) -> bool {
        self.spec_has_flag("Exit"@)
    }

    pub open spec fn spec_relay_type(self) -> RelayType {
        type_of(self.spec_is_guard(), self.spec_is_exit())
    }

    /// The map position, present when both coordinates are.
    pub open spec fn spec_position(self) -> Option<(u64, u64)> {
        match (self.latitude, self.longitude) {
            (Some(lat), Some(lon)) => Some((lat, lon)),
            _ => None,
        }
    }

    /// The first OR address with its port removed.
    pub open spec fn spec_primary_ip(self) -> Option<Seq<char>> {
        match self.or_addresses {
            Some(v) => if v.len() > 0 {
                strip_port(v[0]@)
            } else {
                None
            },
            None => None,
        }
    }

    /// `display_name` is defined: there is a nickname, or the fingerprint can
    /// be cut after its eighth byte.
    pub open spec fn display_name_defined(self) -> bool {
        self.nickname is Some || is_char_boundary(encode_utf8(self.fingerprint@), 8)
    }

    /// The nickname, or else the first eight bytes of the fingerprint.
    pub open spec fn spec_display_name(self) -> Seq<char> {
        match self.nickname {
            Some(n) => n@,
            None => decode_utf8(encode_utf8(self.fingerprint@).subrange(0, 8)),
        }
    }

    /// The listed flags; a relay with no flag list has none.
    pub fn flags(&self) -> (r: &[String])
        ensures
            r@ == self.flag_list(),
    {
        match &self.flags {
            Some(v) => v.as_slice(),
            None => &[],
        }
    }

    /// Some flag matches `f`, ignoring ASCII case.
    pub fn has_flag(&self, f: &str) -> (r: bool)
        ensures
            r == self.spec_has_flag(f@),
    {
        let fl = self.flags();
        let mut i: usize = 0;
        while i < fl.len()
            invariant
                fl@ == self.flag_list(),
                i <= fl.len(),
                forall|k: int| 0 <= k < i ==> !eq_ignore_ascii_case_spec(#[trigger] fl@[k]@, f@),
            decreases fl.len() - i,
        {
            if eq_ignore_ascii_case(fl[i].as_str(), f) {
                return true;
            }
            i = i + 1;
        }
        false
    }

    pub fn is_guard(&self) -> (r: bool)
        ensures
            r == self.spec_is_guard(),
    {
        self.has_flag("Guard")
    }

    pub fn is_exit(&self) -> (r: bool)
        ensures
            r == self.spec_is_exit(),
    {
        self.has_flag("Exit")
    }

    pub fn is_stable(&self) -> (r: bool)
        ensures
            r == self.spec_has_flag("Stable"@),
    {
        self.has_flag("Stable")
    }

    pub fn is_fast(&self) -> (r: bool)
        ensures
            r == self.spec_has_flag("Fast"@),
    {
        self.has_flag("Fast")
    }

    /// Guard and Exit flags together give Guard+Exit, one alone gives that
    /// type, neither gives Middle.
    pub fn relay_type(&self) -> (r: RelayType)
        ensures
            r == self.spec_relay_type(),
            (r == RelayType::GuardExit) == (self.spec_is_guard() && self.spec_is_exit()),
            (r == RelayType::Guard) == (self.spec_is_guard() && !self.spec_is_exit()),
            (r == RelayType::Exit) == (!self.spec_is_guard() && self.spec_is_exit()),
            (r == RelayType::Middle) == (!self.spec_is_guard() && !self.spec_is_exit()),
    {
        let g = self.is_guard();
        let e = self.is_exit();
        if g && e {
            RelayType::GuardExit
        } else if g {
            RelayType::Guard
        } else if e {
            RelayType::Exit
        } else {
            RelayType::Middle
        }
    }

    /// Latitude and longitude bits, when both are known.
    pub fn position(&self) -> (r: Option<(u64, u64)>)
        ensures
            r == self.spec_position(),
    {
        match (self.latitude, self.longitude) {
            (Some(lat), Some(lon)) => Some((lat, lon)),
            _ => None,
        }
    }

    /// The first OR address without its port.
    pub fn primary_ip(&self) -> (r: Option<String>)
        ensures
            r matches Some(s) ==> self.spec_primary_ip() == Some(s@),
            r is None ==> self.spec_primary_ip() is None,
    {
        match &self.or_addresses {
            Some(v) => {
                if v.len() == 0 {
                    None
                } else {
                    strip_port_of(v[0].as_str())
                }
            },
            None => None,
        }
    }

    /// Whether `display_name` may be called on this relay.
    pub fn name_defined(&self) -> (b: bool)
        ensures
            b == self.display_name_defined(),
    {
        self.nickname.is_some() || self.fingerprint.as_str().is_char_boundary(8)
    }

    /// The nickname, or the first eight bytes of the fingerprint.
    pub fn display_name(&self) -> (r: String)
        requires
            self.display_name_defined(),
        ensures
            r@ == self.spec_display_name(),
    {
        match &self.nickname {
            Some(n) => n.clone(),
            None => {
                let fp = self.fingerprint.as_str();
                proof {
                    vstd::utf8::encode_utf8_valid_utf8(fp@);
                }
                let (head, _tail) = fp.split_at(8);
                proof {
                    vstd::utf8::encode_utf8_decode_utf8(head@);
                }
                head.to_owned()
            },
        }
    }
}

fn strip_port_of(addr: &str) -> (r: Option<String>)
    ensures
        r matches Some(s) ==> strip_port(addr@) == Some(s@),
        r is None ==> strip_port(addr@) is None,
{
    let a = chars_of(addr);
    if a.len() > 0 && a[0] == '[' {
        let end = find_first(&a, ']');
        let start = count_leading(&a, end, '[');
        proof {
            let host = a@.subrange(0, end as int);
            assert(host.subrange(start as int, host.len() as int) =~= addr@.subrange(
                start as int,
                end as int,
            ));
        }
        Some(addr.substring_char(start, end).to_owned())
    } else {
        match find_last(&a, ':') {
            Some(p) => {
                Some(addr.substring_char(0, p).to_owned())
            },
            None => None,
        }
    }
}

impl RelayType {
    /// The label shown for each type.
    pub open spec fn spec_label(self) -> Seq<char> {
        match self {
            RelayType::Guard => "Guard"@,
            RelayType::Exit => "Exit"@,
            RelayType::GuardExit => "Guard+Exit"@,
            RelayType::Middle => "Middle"@,
        }
    }

    /// The colour of each type: purple guards, red exits, amber guard+exits,
    /// teal middles.
    pub open spec fn spec_rgb(self) -> (u8, u8, u8) {
        match self {
            RelayType::Guard => (192, 132, 252),
            RelayType::Exit => (248, 113, 113),
            RelayType::GuardExit => (251, 191, 36),
            RelayType::Middle => (94, 234, 212),
        }
    }

    pub fn label(self) -> (r: &'static str)
        ensures
            r@ == self.spec_label(),
    {
        match self {
            RelayType::Guard => "Guard",
            RelayType::Exit => "Exit",
            RelayType::GuardExit => "Guard+Exit",
            RelayType::Middle => "Middle",
        }
    }

    /// The colour of this type; every other type has a different colour.
    pub fn color(self) -> (c: Color32)
        ensures
            c == rgb_color(self.spec_rgb().0, self.spec_rgb().1, self.spec_rgb().2),
            forall|t: RelayType|
                t != self ==> c != #[trigger] rgb_color(t.spec_rgb().0, t.spec_rgb().1, t.spec_rgb().2),
    {
        match self {
            RelayType::Guard => color_from_rgb(192, 132, 252),
            RelayType::Exit => color_from_rgb(248, 113, 113),
            RelayType::GuardExit => color_from_rgb(251, 191, 36),
            RelayType::Middle => color_from_rgb(94, 234, 212),
        }
    }

    /// Whether this type is shown under the three type toggles.
    pub fn visible_under(self, filter_guard: bool, filter_exit: bool, filter_middle: bool) -> (r: bool)
        ensures
            r == type_visible(self, filter_guard, filter_exit, filter_middle),
    {
        match self {
            RelayType::Guard | RelayType::GuardExit => filter_guard,
            RelayType::Exit => filter_exit,
            RelayType::Middle => filter_middle,
        }
    }
}

/// Flag matching ignores ASCII case: two queries that differ only in the
/// case of ASCII letters find the same flags.
pub proof fn lemma_has_flag_ignores_ascii_case(relay: Relay, a: Seq<char>, b: Seq<char>)
    requires
        eq_ignore_ascii_case_spec(a, b),
    ensures
        relay.spec_has_flag(a) == relay.spec_has_flag(b),
{
    if relay.spec_has_flag(a) {
        let i = choose|i: int|
            0 <= i < relay.flag_list().len() && eq_ignore_ascii_case_spec(
                #[trigger] relay.flag_list()[i]@,
                a,
            );
        assert(eq_ignore_ascii_case_spec(relay.flag_list()[i]@, b));
    }
    if relay.spec_has_flag(b) {
        let i = choose|i: int|
            0 <= i < relay.flag_list().len() && eq_ignore_ascii_case_spec(
                #[trigger] relay.flag_list()[i]@,
                b,
            );
        assert(eq_ignore_ascii_case_spec(relay.flag_list()[i]@, a));
    }
}

/// Each relay type has its own label and its own colour.
pub proof fn lemma_types_distinguishable(a: RelayType, b: RelayType)
    requires
        a != b,
    ensures
        a.spec_label() != b.spec_label(),
        a.spec_rgb() != b.spec_rgb(),
{
    reveal_strlit("Guard");
    reveal_strlit("Exit");
    reveal_strlit("Guard+Exit");
    reveal_strlit("Middle");
    assert(a.spec_label().len() != b.spec_label().len());
}

/// A relay's type is read off its flags, ignoring ASCII case: it counts as
/// an exit (Exit or Guard+Exit) exactly when some flag spells "Exit", and as
/// a guard (Guard or Guard+Exit) exactly when some flag spells "Guard". Any
/// other flags play no part, so a relay with neither is a Middle.
pub proof fn lemma_type_follows_flags(relay: Relay)
    ensures
        (relay.spec_relay_type() == RelayType::Exit || relay.spec_relay_type()
            == RelayType::GuardExit) <==> exists|i: int|
            0 <= i < relay.flag_list().len() && eq_ignore_ascii_case_spec(
                #[trigger] relay.flag_list()[i]@,
                "Exit"@,
            ),
        (relay.spec_relay_type() == RelayType::Guard || relay.spec_relay_type()
            == RelayType::GuardExit) <==> exists|i: int|
            0 <= i < relay.flag_list().len() && eq_ignore_ascii_case_spec(
                #[trigger] relay.flag_list()[i]@,
                "Guard"@,
            ),
        (relay.spec_relay_type() == RelayType::Middle) <==> forall|i: int|
            0 <= i < relay.flag_list().len() ==> !eq_ignore_ascii_case_spec(
                #[trigger] relay.flag_list()[i]@,
                "Exit"@,
            ) && !eq_ignore_ascii_case_spec(relay.flag_list()[i]@, "Guard"@),
{
}

/// An address written `host:port`, with a host not opening with `[` and a
/// port without `:`, has primary IP `host`.
pub proof fn lemma_primary_ip_host_port(relay: Relay, host: Seq<char>, port: Seq<char>)
    requires
        relay.or_addresses matches Some(v) && v.len() > 0 && v[0]@ == host + seq![':'] + port,
        host.len() > 0 && host[0] != '[',
        forall|k: int| 0 <= k < port.len() ==> port[k] != ':',
    ensures
        relay.spec_primary_ip() == Some(host),
{
    let v = relay.or_addresses->0;
    let a = v[0]@;
    assert(a[0] == host[0]);
    assert(a[host.len() as int] == ':');
    assert forall|k: int| host.len() < k < a.len() implies a[k] != ':' by {
        assert(a[k] == port[k - host.len() - 1]);
    }
    crate::text::lemma_last_index_found(a, ':', host.len() as int);
    assert(a.subrange(0, host.len() as int) =~= host);
}

/// An address written `[host]` followed by anything, with a host holding no
/// `]` and not opening with `[`, has primary IP `host`.
pub proof fn lemma_primary_ip_bracketed(relay: Relay, host: Seq<char>, rest: Seq<char>)
    requires
        relay.or_addresses matches Some(v) && v.len() > 0 && v[0]@ == seq!['['] + host + seq![
            ']',
        ] + rest,
        host.len() == 0 || host[0] != '[',
        forall|k: int| 0 <= k < host.len() ==> host[k] != ']',
    ensures
        relay.spec_primary_ip() == Some(host),
{
    let v = relay.or_addresses->0;
    let a = v[0]@;
    let e: int = host.len() as int + 1;
    assert(a[0] == '[');
    assert(a[e] == ']');
    assert forall|k: int| 0 <= k < e implies a[k] != ']' by {
        if k > 0 {
            assert(a[k] == host[k - 1]);
        }
    }
    crate::text::lemma_first_index_of(a, ']', e);
    let h = a.subrange(0, e);
    assert(h[0] == '[');
    if host.len() > 0 {
        assert(h[1] == host[0]);
    }
    crate::text::lemma_leading_run(h, '[', 1);
    assert(h.subrange(1, h.len() as int) =~= host);
}

/// The side panel lists relay `i` exactly when both its coordinates are
/// known, and lists relays in increasing order.
pub proof fn lemma_positioned_listing(resp: OnionooResponse, n: int)
    requires
        0 <= n <= resp.relays@.len(),
        n <= usize::MAX,
    ensures
        forall|i: int|
            0 <= i < n ==> (resp.positioned_upto(n).contains(i as usize) <==> (
            #[trigger] resp.relays@[i]).latitude is Some && resp.relays@[i].longitude is Some),
        forall|a: int, b: int|
            0 <= a < b < resp.positioned_upto(n).len() ==> resp.positioned_upto(n)[a]
                < resp.positioned_upto(n)[b],
        forall|a: int|
            0 <= a < resp.positioned_upto(n).len() ==> resp.positioned_upto(n)[a] < n,
    decreases n,
{
    if n > 0 {
        lemma_positioned_listing(resp, n - 1);
        let prev = resp.positioned_upto(n - 1);
        let x = (n - 1) as usize;
        if resp.relays@[n - 1].spec_position() is Some {
            let cur = prev.push(x);
            assert(cur[prev.len() as int] == x);
            assert forall|i: int| 0 <= i < n implies (cur.contains(i as usize) <==> (
            #[trigger] resp.relays@[i]).latitude is Some && resp.relays@[i].longitude
                is Some) by {
                if cur.contains(i as usize) {
                    let w = choose|w: int| 0 <= w < cur.len() && cur[w] == i as usize;
                    if w < prev.len() {
                        assert(prev[w] == i as usize);
                    }
                }
                if i < n - 1 && prev.contains(i as usize) {
                    let w = choose|w: int| 0 <= w < prev.len() && prev[w] == i as usize;
                    assert(cur[w] == i as usize);
                }
            }
        } else {
            assert forall|i: int| 0 <= i < n implies (prev.contains(i as usize) <==> (
            #[trigger] resp.relays@[i]).latitude is Some && resp.relays@[i].longitude
                is Some) by {
                if i == n - 1 && prev.contains(i as usize) {
                    let w = choose|w: int| 0 <= w < prev.len() && prev[w] == i as usize;
                }
            }
        }
    }
}

/// The three toggles are independent: a Middle is visible exactly when the
/// middle toggle is on, an Exit exactly when the exit toggle is on, and a
/// Guard or Guard+Exit exactly when the guard toggle is on.
pub proof fn lemma_type_toggles(g: bool, e: bool, m: bool)
    ensures
        type_visible(RelayType::Middle, g, e, m) == m,
        type_visible(RelayType::Exit, g, e, m) == e,
        type_visible(RelayType::Guard, g, e, m) == g,
        type_visible(RelayType::GuardExit, g, e, m) == g,
{
}

/// The display name is the nickname when there is one; otherwise, for the
/// usual ASCII fingerprint, its first eight characters.
pub proof fn lemma_display_name_meaning(relay: Relay)
    ensures
        relay.nickname matches Some(n) ==> relay.spec_display_name() == n@,
        relay.nickname is None && vstd::utf8::is_ascii_chars(relay.fingerprint@)
            && relay.fingerprint@.len() >= 8 ==> relay.spec_display_name()
            == relay.fingerprint@.subrange(0, 8),
{
    let fp = relay.fingerprint@;
    if relay.nickname is None && vstd::utf8::is_ascii_chars(fp) && fp.len() >= 8 {
        let t = fp.subrange(0, 8);
        assert(vstd::utf8::is_ascii_chars(t)) by {
            assert forall|i: int| 0 <= i < t.len() implies '\0' <= #[trigger] t[i] <= '\u{7f}' by {
                assert(t[i] == fp[i]);
            }
        }
        vstd::utf8::is_ascii_chars_encode_utf8(fp);
        vstd::utf8::is_ascii_chars_encode_utf8(t);
        assert(encode_utf8(t) =~= encode_utf8(fp).subrange(0, 8)) by {
            assert forall|i: int| 0 <= i < 8 implies encode_utf8(t)[i] == encode_utf8(fp)[i] by {
                assert(t[i] == fp[i]);
            }
        }
        vstd::utf8::encode_utf8_decode_utf8(t);
    }
}

} // verus!
