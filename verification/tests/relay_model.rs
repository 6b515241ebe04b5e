use egui::Color32;
use tor_replay::relay::{OnionooResponse, Relay, RelayType};

fn relay(nick: Option<&str>, fp: &str, flags: Option<Vec<&str>>, addrs: Option<Vec<&str>>) -> Relay {
    Relay {
        nickname: nick.map(|s| s.to_string()),
        fingerprint: fp.to_string(),
        flags: flags.map(|v| v.into_iter().map(|s| s.to_string()).collect()),
        or_addresses: addrs.map(|v| v.into_iter().map(|s| s.to_string()).collect()),
        latitude: None,
        longitude: None,
        country: None,
        country_name: None,
        as_name: None,
        bandwidth_rate: None,
        observed_bandwidth: None,
        platform: None,
        contact: None,
        exit_policy: None,
        first_seen: None,
        last_seen: None,
    }
}

const FP: &str = "0011223344556677889900AABBCCDDEEFF001122";

#[test]
fn labels_of_each_type() {
    assert_eq!(RelayType::Guard.label(), "Guard");
    assert_eq!(RelayType::Exit.label(), "Exit");
    assert_eq!(RelayType::GuardExit.label(), "Guard+Exit");
    assert_eq!(RelayType::Middle.label(), "Middle");
}

#[test]
fn colours_of_each_type() {
    assert_eq!(RelayType::Guard.color(), Color32::from_rgb(192, 132, 252));
    assert_eq!(RelayType::Exit.color(), Color32::from_rgb(248, 113, 113));
    assert_eq!(RelayType::GuardExit.color(), Color32::from_rgb(251, 191, 36));
    assert_eq!(RelayType::Middle.color(), Color32::from_rgb(94, 234, 212));
}

#[test]
fn flags_absent_is_empty() {
    let r = relay(None, FP, None, None);
    assert!(r.flags().is_empty());
    assert!(!r.has_flag("Guard"));
    let r = relay(None, FP, Some(vec!["Fast", "Stable"]), None);
    assert_eq!(r.flags().len(), 2);
    assert!(r.is_fast());
    assert!(r.is_stable());
}

#[test]
fn flag_match_ignores_ascii_case() {
    let r = relay(None, FP, Some(vec!["guard", "EXIT"]), None);
    assert!(r.has_flag("Guard"));
    assert!(r.has_flag("GUARD"));
    assert!(r.has_flag("exit"));
    assert!(!r.has_flag("Guar"));
    assert!(!r.has_flag("Stable"));
    assert!(r.is_guard());
    assert!(r.is_exit());
}

#[test]
fn relay_type_from_flags() {
    assert_eq!(relay(None, FP, Some(vec!["Guard"]), None).relay_type(), RelayType::Guard);
    assert_eq!(relay(None, FP, Some(vec!["Exit"]), None).relay_type(), RelayType::Exit);
    assert_eq!(
        relay(None, FP, Some(vec!["Exit", "Fast", "Guard"]), None).relay_type(),
        RelayType::GuardExit
    );
    assert_eq!(relay(None, FP, Some(vec!["Fast"]), None).relay_type(), RelayType::Middle);
    assert_eq!(relay(None, FP, None, None).relay_type(), RelayType::Middle);
}

#[test]
fn primary_ip_strips_ipv4_port() {
    let r = relay(None, FP, None, Some(vec!["1.2.3.4:9001", "5.6.7.8:443"]));
    assert_eq!(r.primary_ip(), Some("1.2.3.4".to_string()));
}

#[test]
fn primary_ip_strips_ipv6_brackets_and_port() {
    let r = relay(None, FP, None, Some(vec!["[dead::1]:443"]));
    assert_eq!(r.primary_ip(), Some("dead::1".to_string()));
    let r = relay(None, FP, None, Some(vec!["[[x]:1"]));
    assert_eq!(r.primary_ip(), Some("x".to_string()));
    let r = relay(None, FP, None, Some(vec!["[abc"]));
    assert_eq!(r.primary_ip(), Some("abc".to_string()));
}

#[test]
fn primary_ip_without_port_or_address() {
    assert_eq!(relay(None, FP, None, Some(vec!["1.2.3.4"])).primary_ip(), None);
    assert_eq!(relay(None, FP, None, Some(vec![])).primary_ip(), None);
    assert_eq!(relay(None, FP, None, None).primary_ip(), None);
    // the last colon separates the port
    let r = relay(None, FP, None, Some(vec!["a:b:c"]));
    assert_eq!(r.primary_ip(), Some("a:b".to_string()));
}

#[test]
fn display_name_prefers_nickname() {
    assert_eq!(relay(Some("moria1"), FP, None, None).display_name(), "moria1");
    assert_eq!(relay(None, FP, None, None).display_name(), "00112233");
}

#[test]
fn position_needs_both_coordinates() {
    let mut r = relay(None, FP, None, None);
    assert_eq!(r.position(), None);
    r.latitude = Some(1.5f64.to_bits());
    assert_eq!(r.position(), None);
    r.longitude = Some((-2.0f64).to_bits());
    assert_eq!(r.position(), Some((1.5f64.to_bits(), (-2.0f64).to_bits())));
}

#[test]
fn response_holds_relays() {
    let resp = OnionooResponse { relays: vec![relay(None, FP, None, None)] };
    assert_eq!(resp.relays.len(), 1);
}

#[test]
fn colours_pairwise_distinct() {
    let types = [RelayType::Guard, RelayType::Exit, RelayType::GuardExit, RelayType::Middle];
    for (i, a) in types.iter().enumerate() {
        for (j, b) in types.iter().enumerate() {
            assert_eq!(i == j, a.color() == b.color());
        }
    }
}

#[test]
fn name_defined_follows_char_boundary() {
    assert!(relay(Some("n"), "é", None, None).name_defined());
    assert!(relay(None, FP, None, None).name_defined());
    assert!(!relay(None, "short", None, None).name_defined());
    // 'é' takes two bytes, so byte 8 falls inside the fifth character
    assert!(!relay(None, "abcdefgé0000", None, None).name_defined());
}

#[test]
fn positioned_indices_skip_unplaced() {
    let mut a = relay(None, FP, None, None);
    a.latitude = Some(1.0f64.to_bits());
    a.longitude = Some(1.0f64.to_bits());
    let b = relay(None, FP, None, None);
    let resp = OnionooResponse { relays: vec![b.clone(), a.clone(), b, a] };
    assert_eq!(resp.positioned_indices(), vec![1, 3]);
}
