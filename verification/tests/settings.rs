use hosteld::identity::{pubkey_hex, Contact};
use hosteld::settings::{
    blocked_row, device_index, device_name, reset_theme, set_by_name, toggle_listed, Settings,
    ThemeColor,
};

fn contact(key: u8, address: &str) -> Contact {
    Contact {
        fingerprint: "fp".to_string(),
        pubkey: [key; 32],
        nickname: "ann".to_string(),
        contact_id: "id".to_string(),
        first_seen: "0".to_string(),
        last_seen: "0".to_string(),
        last_address: address.to_string(),
        last_port: "9000".to_string(),
        call_count: 0,
    }
}

fn color(name: &str, rgb: [u8; 3]) -> ThemeColor {
    ThemeColor { name: name.to_string(), rgb }
}

fn names(list: &[&str]) -> Vec<String> {
    list.iter().map(|s| s.to_string()).collect()
}

#[test]
fn the_first_settings_have_their_colors() {
    let s = Settings::with_theme(vec![color("accent", [1, 2, 3])]);
    assert_eq!(s.theme.len(), 1);
    assert_eq!((s.theme[0].name.as_str(), s.theme[0].rgb), ("accent", [1, 2, 3]));
    assert_eq!(s.local_port, "");
    assert_eq!(s.blocked.len(), 0);
}

#[test]
fn blocking_is_remembered_once() {
    let mut s = Settings::default();
    assert!(!s.is_blocked("aa"));
    assert!(s.block_contact("aa"));
    assert!(!s.block_contact("aa"));
    assert!(s.is_blocked("aa"));
    assert!(!s.is_blocked("bb"));
    assert_eq!(s.blocked, names(&["aa"]));
    s.unblock_contact("aa");
    assert!(!s.is_blocked("aa"));
}

#[test]
fn banning_is_remembered_once() {
    let mut s = Settings::default();
    assert!(s.ban_ip("::2"));
    assert!(!s.ban_ip("::2"));
    assert!(s.ban_ip("::3"));
    assert!(s.is_ip_banned("::2"));
    s.unban_ip("::2");
    assert!(!s.is_ip_banned("::2"));
    assert!(s.is_ip_banned("::3"));
}

#[test]
fn blocking_a_contact_bans_its_address() {
    let mut s = Settings::default();
    let c = contact(3, "fd00::3");
    let key = pubkey_hex(&c.pubkey);
    s.toggle_block(&c);
    assert!(s.is_blocked(&key));
    assert!(s.is_ip_banned("fd00::3"));
    s.toggle_block(&c);
    assert!(!s.is_blocked(&key));
    assert!(!s.is_ip_banned("fd00::3"));
}

#[test]
fn blocking_a_contact_without_address_bans_nothing() {
    let mut s = Settings::default();
    s.toggle_block(&contact(3, ""));
    assert_eq!(s.blocked.len(), 1);
    assert_eq!(s.banned_ips.len(), 0);
}

#[test]
fn automatic_bans_are_taken_over() {
    let mut s = Settings::default();
    s.ban_ip("::2");
    let all = s.adopt_auto_bans(&names(&["::2", "::5", "::5"]));
    assert_eq!(all, names(&["::2", "::5"]));
    assert_eq!(s.banned_ips, names(&["::2", "::5"]));
}

#[test]
fn a_new_port_asks_about_the_firewall() {
    let mut s = Settings::default();
    s.firewall_port = "9000".to_string();
    assert_eq!(s.save_port("9001"), Some("9000".to_string()));
    assert_eq!(s.local_port, "9001");
    assert_eq!(s.save_port("9001"), None);
    assert_eq!(s.save_port("9000"), None);
}

#[test]
fn default_port() {
    let mut s = Settings::default();
    assert_eq!(s.listening_port(), "9000");
    assert!(s.needs_firewall_prompt("9000"));
    s.local_port = "1234".to_string();
    assert_eq!(s.listening_port(), "1234");
    s.firewall_port = "1234".to_string();
    assert!(!s.needs_firewall_prompt("1234"));
}

#[test]
fn firewall_ports_are_read() {
    let mut s = Settings::default();
    assert_eq!(s.confirm_firewall("9000", "9001"), (Some(9000), Some(9001)));
    assert_eq!(s.firewall_port, "9001");
    assert_eq!(s.confirm_firewall("", "65536"), (None, None));
    assert_eq!(s.confirm_firewall("x", "+80"), (None, Some(80)));
}

#[test]
fn devices_by_saved_name() {
    let list = names(&["a", "b"]);
    assert_eq!(device_index(&list, "b"), 1);
    assert_eq!(device_index(&list, "gone"), 0);
    assert_eq!(device_index(&list, ""), 0);
    assert_eq!(device_name(&list, 1), "b");
    assert_eq!(device_name(&list, 2), "");
}

#[test]
fn colors_reset_unless_locked() {
    let defaults = vec![color("a", [1, 1, 1]), color("b", [2, 2, 2])];
    let mut colors = vec![color("a", [9, 9, 9]), color("b", [9, 9, 9])];
    reset_theme(&mut colors, &defaults, &names(&["b"]));
    assert_eq!(colors[0].rgb, [1, 1, 1]);
    assert_eq!(colors[1].rgb, [9, 9, 9]);
}

#[test]
fn a_color_is_set_by_name() {
    let mut colors = vec![color("a", [1, 1, 1]), color("b", [2, 2, 2])];
    set_by_name(&mut colors, "b", [5, 6, 7]);
    set_by_name(&mut colors, "none", [0, 0, 0]);
    assert_eq!(colors[0].rgb, [1, 1, 1]);
    assert_eq!(colors[1].rgb, [5, 6, 7]);
}

#[test]
fn locks_toggle() {
    let mut locks = names(&["a"]);
    toggle_listed(&mut locks, "b");
    toggle_listed(&mut locks, "a");
    assert_eq!(locks, names(&["b"]));
}

#[test]
fn blocked_contacts_are_shown_by_name_or_key() {
    let all = vec![contact(3, "::3")];
    let known = blocked_row(&all, &pubkey_hex(&[3u8; 32]));
    assert_eq!((known.nickname.as_str(), known.ip.as_str()), ("ann", "::3"));
    let stranger = blocked_row(&all, &pubkey_hex(&[4u8; 32]));
    assert_eq!(stranger.nickname, "");
    assert_eq!(stranger.fingerprint, "0404040404040404...");
    assert_eq!(blocked_row(&all, "abc").fingerprint, "abc...");
}
