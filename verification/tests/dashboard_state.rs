use std::sync::Arc;

use tor_replay::cluster::build_clusters;
use tor_replay::dashboard::{DashboardState, NetworkStats};
use tor_replay::fetch::FetchState;
use tor_replay::map_plugin::{pick_last_hit, RelayMapPlugin};
use tor_replay::relay::{OnionooResponse, Relay};

fn relay(nick: Option<&str>, fp: &str, flags: &[&str], addr: Option<&str>, country: Option<&str>, located: bool) -> Relay {
    Relay {
        nickname: nick.map(|s| s.to_string()),
        fingerprint: fp.to_string(),
        flags: Some(flags.iter().map(|s| s.to_string()).collect()),
        or_addresses: addr.map(|a| vec![a.to_string()]),
        latitude: if located { Some(48.0f64.to_bits()) } else { None },
        longitude: if located { Some(2.0f64.to_bits()) } else { None },
        country: country.map(|s| s.to_string()),
        country_name: None,
        as_name: None,
        bandwidth_rate: None,
        observed_bandwidth: None,
        platform: None,
        contact: None,
        exit_policy: None,
        first_seen: None,
        last_seen: None,
    }
}

fn data() -> OnionooResponse {
    OnionooResponse {
        relays: vec![
            relay(Some("AlphaRelay"), "ABCDEF0123456789ABCDEF0123456789ABCDEF01", &["Guard"], Some("10.0.0.1:9001"), Some("de"), true),
            relay(Some("exitnode"), "1111111111111111111111111111111111111111", &["Exit", "Guard"], Some("[2001:db8::1]:443"), Some("fr"), true),
            relay(None, "FEEDFACE00000000000000000000000000000000", &["Exit"], None, Some("de"), true),
            relay(Some("quiet"), "2222222222222222222222222222222222222222", &["Fast"], Some("192.168.5.5:443"), None, false),
            relay(Some("middle2"), "3333333333333333333333333333333333333333", &[], Some("8.8.8.8:80"), Some("us"), true),
        ],
    }
}

fn plugin(query: &str, g: bool, e: bool, m: bool) -> RelayMapPlugin {
    RelayMapPlugin {
        relays: Arc::new(data()),
        filter_guard: g,
        filter_exit: e,
        filter_middle: m,
        search_query: query.to_string(),
    }
}

#[test]
fn stats_partition_roles() {
    let s = NetworkStats::from_relays(&data().relays);
    assert_eq!(s.total_relays, 5);
    assert_eq!(s.n_guard, 1);
    assert_eq!(s.n_exit, 2);
    assert_eq!(s.n_middle, 2);
    assert_eq!(s.n_guard + s.n_exit + s.n_middle, s.total_relays);
    assert_eq!(s.n_countries, 3);
}

#[test]
fn stats_of_nothing() {
    let s = NetworkStats::from_relays(&vec![]);
    assert_eq!(s, NetworkStats { total_relays: 0, n_guard: 0, n_exit: 0, n_middle: 0, n_countries: 0 });
}

#[test]
fn dashboard_starts_with_everything_shown() {
    let d = DashboardState::new();
    assert!(d.filter_guard && d.filter_exit && d.filter_middle);
    assert!(d.search_query.is_empty());
    assert_eq!(d.hovered_idx, None);
    assert_eq!(d.selected_idx, None);
    assert_eq!(d.stats.total_relays, 0);
    assert!(!d.show_about);
}

#[test]
fn stats_are_counted_once_when_data_arrives() {
    let mut d = DashboardState::new();
    d.hovered_idx = Some(3);
    d.update(None);
    assert_eq!(d.stats.total_relays, 0);
    assert_eq!(d.hovered_idx, None);
    let first = data();
    d.update(Some(&first));
    assert_eq!(d.stats.total_relays, 5);
    let other = OnionooResponse { relays: vec![] };
    d.update(Some(&other));
    assert_eq!(d.stats.total_relays, 5);
}

#[test]
fn map_plugin_carries_filters() {
    let mut d = DashboardState::new();
    d.filter_exit = false;
    d.search_query = "abc".to_string();
    let p = d.map_plugin(Arc::new(data()));
    assert!(p.filter_guard && !p.filter_exit && p.filter_middle);
    assert_eq!(p.search_query, "abc");
    assert_eq!(p.relays.relays.len(), 5);
}

#[test]
fn should_show_by_type_and_position() {
    let p = plugin("", true, true, true);
    let rs = &p.relays.relays;
    assert!(p.should_show(&rs[0]));
    assert!(!p.should_show(&rs[3])); // no position
    let p = plugin("", false, true, true);
    assert!(!p.should_show(&p.relays.relays[0]));
    assert!(!p.should_show(&p.relays.relays[1])); // guard+exit follows the guard toggle
    assert!(p.should_show(&p.relays.relays[2]));
}

#[test]
fn search_matches_name_ip_or_fingerprint() {
    // name, case-insensitively
    assert!(plugin("ALPHA", true, true, true).should_show(&data().relays[0]));
    // address, as written
    assert!(plugin("2001:db8", true, true, true).should_show(&data().relays[1]));
    // fingerprint, case-insensitively
    assert!(plugin("feedface", true, true, true).should_show(&data().relays[2]));
    // fingerprint prefix is the display name when there is no nickname
    assert!(plugin("FEEDFA", true, true, true).should_show(&data().relays[2]));
    assert!(!plugin("zzz", true, true, true).should_show(&data().relays[0]));
}

#[test]
fn draw_order_puts_middles_first() {
    let p = plugin("", true, true, true);
    assert_eq!(p.draw_order(), vec![4, 0, 1, 2]);
    let p = plugin("e", true, true, true);
    // "e" matches alpharelay, exitnode, the FEEDFACE fingerprint and middle2
    assert_eq!(p.draw_order(), vec![4, 0, 1, 2]);
    let p = plugin("exit", true, true, true);
    assert_eq!(p.draw_order(), vec![1]);
    let p = plugin("", false, false, false);
    assert!(p.draw_order().is_empty());
}

#[test]
fn fetch_state_transitions() {
    assert!(matches!(FetchState::default(), FetchState::Idle));
    match FetchState::finished(Ok(data())) {
        FetchState::Done(d) => assert_eq!(d.relays.len(), 5),
        _ => panic!("expected Done"),
    }
    match FetchState::finished(Err("timeout".to_string())) {
        FetchState::Error(e) => assert_eq!(e, "timeout"),
        _ => panic!("expected Error"),
    }
}

#[test]
fn bubbles_hold_the_drawn_relays() {
    for (g, e, m) in [(true, true, true), (true, false, true), (false, true, false), (false, false, true)] {
        let p = plugin("", g, e, m);
        let relays = &p.relays.relays;
        let cells: Vec<(i32, i32)> = (0..relays.len()).map(|i| ((i % 2) as i32, 0)).collect();
        let total: usize = build_clusters(&p, &cells).iter().map(|c| c.count).sum();
        assert_eq!(total, p.draw_order().len());
    }
    for q in ["e", "exit", "2001", "zzz"] {
        let p = plugin(q, true, true, true);
        let cells: Vec<(i32, i32)> = vec![(0, 0); 5];
        let total: usize = build_clusters(&p, &cells).iter().map(|c| c.count).sum();
        assert_eq!(total, p.draw_order().len());
    }
}

#[test]
fn pointer_picks_topmost_hit() {
    let order = vec![4, 0, 1, 2];
    assert_eq!(pick_last_hit(&order, &vec![false, true, true, false]), Some(1));
    assert_eq!(pick_last_hit(&order, &vec![true, false, false, false]), Some(4));
    assert_eq!(pick_last_hit(&order, &vec![false; 4]), None);
    assert_eq!(pick_last_hit(&vec![], &vec![]), None);
}

#[test]
fn switching_toggles_on_never_hides() {
    let narrow = plugin("", false, true, false);
    let wide = plugin("", true, true, false);
    for r in &data().relays {
        if narrow.should_show(r) {
            assert!(wide.should_show(r));
        }
    }
}

#[test]
fn fetch_state_data_only_when_done() {
    assert!(FetchState::Idle.data().is_none());
    assert!(FetchState::Loading.data().is_none());
    assert!(FetchState::Error("x".to_string()).data().is_none());
    let d = FetchState::finished(Ok(data())).data().expect("data");
    assert_eq!(d.relays.len(), 5);
}

#[test]
fn searchable_only_matters_with_a_query() {
    let bad = relay(None, "short", &["Guard"], None, None, true);
    assert!(plugin("", true, true, true).searchable(&bad));
    assert!(!plugin("x", true, true, true).searchable(&bad));
    assert!(plugin("x", false, true, true).searchable(&bad));
}

