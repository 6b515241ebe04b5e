use std::sync::Arc;

use tor_replay::cluster::{build_clusters, Cluster};
use tor_replay::map_plugin::RelayMapPlugin;
use tor_replay::relay::OnionooResponse;
use tor_replay::relay::{Relay, RelayType};

fn cluster(relays: &[Relay], cells: &Vec<(i32, i32)>, g: bool, e: bool, m: bool, q: &str) -> Vec<Cluster> {
    let p = RelayMapPlugin {
        relays: Arc::new(OnionooResponse { relays: relays.to_vec() }),
        filter_guard: g,
        filter_exit: e,
        filter_middle: m,
        search_query: q.to_string(),
    };
    build_clusters(&p, cells)
}

fn placed(flags: &[&str], located: bool) -> Relay {
    Relay {
        nickname: Some("r".to_string()),
        fingerprint: "AAAAAAAAAAAAAAAAAAAAAAAAAAAAAAAAAAAAAAAA".to_string(),
        flags: Some(flags.iter().map(|s| s.to_string()).collect()),
        or_addresses: None,
        latitude: if located { Some(10.0f64.to_bits()) } else { None },
        longitude: if located { Some(20.0f64.to_bits()) } else { None },
        country: None,
        country_name: None,
        as_name: None,
        bandwidth_rate: None,
        observed_bandwidth: None,
        platform: None,
        contact: None,
        exit_policy: None,
        first_seen: None,
        last_seen: None,
    }
}

fn find(cs: &[Cluster], cell: (i32, i32)) -> Cluster {
    *cs.iter().find(|c| (c.cell_lat, c.cell_lon) == cell).expect("cluster for cell")
}

fn sample() -> (Vec<Relay>, Vec<(i32, i32)>) {
    let relays = vec![
        placed(&["Guard"], true),
        placed(&["Exit"], true),
        placed(&["Guard", "Exit"], true),
        placed(&[], true),
        placed(&["Guard"], false),
        placed(&[], true),
    ];
    let cells = vec![(1, 2), (1, 2), (3, 4), (1, 2), (1, 2), (-1, 0)];
    (relays, cells)
}

#[test]
fn clusters_count_by_cell_and_type() {
    let (relays, cells) = sample();
    let cs = cluster(&relays, &cells, true, true, true, "");
    assert_eq!(cs.len(), 3);
    let a = find(&cs, (1, 2));
    assert_eq!((a.count, a.n_guard, a.n_exit, a.n_middle), (3, 1, 1, 1));
    let b = find(&cs, (3, 4));
    assert_eq!((b.count, b.n_guard, b.n_exit, b.n_middle), (1, 1, 0, 0));
    let c = find(&cs, (-1, 0));
    assert_eq!((c.count, c.n_guard, c.n_exit, c.n_middle), (1, 0, 0, 1));
}

#[test]
fn cluster_counts_add_up() {
    let (relays, cells) = sample();
    let cs = cluster(&relays, &cells, true, true, true, "");
    let total: usize = cs.iter().map(|c| c.count).sum();
    assert_eq!(total, 5);
    for c in &cs {
        assert_eq!(c.count, c.n_guard + c.n_exit + c.n_middle);
    }
}

#[test]
fn filters_hide_types_from_clusters() {
    let (relays, cells) = sample();
    // guard+exit follows the guard toggle
    let cs = cluster(&relays, &cells, false, true, false, "");
    assert_eq!(cs.len(), 1);
    assert_eq!(find(&cs, (1, 2)).n_exit, 1);
    assert!(cluster(&relays, &cells, false, false, false, "").is_empty());
    let cs = cluster(&relays, &cells, true, false, false, "");
    assert_eq!(find(&cs, (3, 4)).n_guard, 1);
    assert_eq!(find(&cs, (1, 2)).count, 1);
}

#[test]
fn no_relays_no_clusters() {
    assert!(cluster(&[], &vec![], true, true, true, "").is_empty());
}

#[test]
fn dominant_type_breaks_ties() {
    let c = |g, e, m| Cluster { cell_lat: 0, cell_lon: 0, count: g + e + m, n_guard: g, n_exit: e, n_middle: m };
    assert_eq!(c(1, 1, 1).dominant_type(), RelayType::Exit);
    assert_eq!(c(2, 1, 2).dominant_type(), RelayType::Guard);
    assert_eq!(c(1, 0, 3).dominant_type(), RelayType::Middle);
    assert_eq!(c(0, 0, 0).dominant_type(), RelayType::Exit);
    assert_eq!(c(3, 2, 1).dominant_type(), RelayType::Guard);
}

#[test]
fn clustering_ignores_order_and_unplaced_relays() {
    let (relays, cells) = sample();
    let mut key = |v: Vec<Cluster>| {
        let mut k: Vec<_> = v.iter().map(|c| (c.cell_lat, c.cell_lon, c.count, c.n_guard, c.n_exit, c.n_middle)).collect();
        k.sort();
        k
    };
    let base = key(cluster(&relays, &cells, true, true, true, ""));
    let order = [5, 3, 0, 2, 1, 4];
    let mut r2: Vec<Relay> = order.iter().map(|&i| relays[i].clone()).collect();
    let mut c2: Vec<(i32, i32)> = order.iter().map(|&i| cells[i]).collect();
    r2.push(placed(&["Exit"], false));
    c2.push((9, 9));
    assert_eq!(key(cluster(&r2, &c2, true, true, true, "")), base);
}

#[test]
fn search_query_filters_bubbles() {
    let mut relays = vec![placed(&["Guard"], true), placed(&["Exit"], true), placed(&[], true)];
    relays[0].nickname = Some("alpha".to_string());
    relays[1].nickname = Some("beta".to_string());
    relays[2].nickname = Some("alphabet".to_string());
    let cells = vec![(0, 0), (0, 0), (1, 1)];
    let cs = cluster(&relays, &cells, true, true, true, "ALPHA");
    let total: usize = cs.iter().map(|c| c.count).sum();
    assert_eq!(total, 2);
    assert_eq!(find(&cs, (0, 0)).n_guard, 1);
    assert_eq!(find(&cs, (0, 0)).n_exit, 0);
    assert!(cluster(&relays, &cells, true, true, true, "zzz").is_empty());
}
