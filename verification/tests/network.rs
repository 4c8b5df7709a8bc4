use hosteld::admin::{last_address_line, show_address};
use hosteld::identity::Contact;
use hosteld::network::{
    censor_ip, format_peer_display, get_adapter_names, get_best_ipv6, parse_linux, parse_macos,
    parse_windows, socket_address, NetInterface, Scope,
};

fn address(name: &str, ip: &str, scope: Scope) -> NetInterface {
    NetInterface { name: name.to_string(), ip: ip.to_string(), scope }
}

fn ips(list: &[NetInterface]) -> Vec<&str> {
    list.iter().map(|i| i.ip.as_str()).collect()
}

#[test]
fn reading_the_linux_listing() {
    let text = "1: lo: <LOOPBACK,UP,LOWER_UP> mtu 65536\n    inet6 ::1/128 scope host\n\
        2: eth0: <BROADCAST,UP> mtu 1500\n    inet6 fe80::1/64 scope link\n    \
        inet6 2001:db8::7/64 scope global temporary dynamic\n    inet6 2001:db8::5/64 scope global\n\
        3: zt0@if4: <UP> mtu 2800\n    inet6 fd00::9/88 scope global\n";
    let found = parse_linux(text);
    assert_eq!(ips(&found), vec!["2001:db8::5", "fd00::9", "fe80::1"]);
    assert_eq!(found[0].name, "eth0");
    assert_eq!(found[1].name, "zt0");
    assert!(found[2].scope == Scope::LinkLocal);
}

#[test]
fn reading_the_windows_listing() {
    let text = "\"InterfaceAlias\",\"IPAddress\"\r\n\"Wi-Fi\",\"fe80::2\"\r\n\"Ethernet\",\"2001:db8::1\"\r\n\"Loopback\",\"::1\"\r\n";
    let found = parse_windows(text);
    assert_eq!(ips(&found), vec!["2001:db8::1", "fe80::2"]);
    assert_eq!(found[0].name, "Ethernet");
}

#[test]
fn reading_the_macos_listing() {
    let text = "lo0: flags=8049\n\tinet6 ::1 prefixlen 128\n\tinet6 fe80::1%lo0 prefixlen 64\n\
        en0: flags=8863\n\tinet6 fe80::8%en0 prefixlen 64\n\tinet6 2001:db8::8 prefixlen 64 deprecated\n\
        \tinet6 2001:db8::9 prefixlen 64\n";
    let found = parse_macos(text);
    assert_eq!(ips(&found), vec!["2001:db8::9", "fe80::8"]);
    assert_eq!(found[1].name, "en0");
}

#[test]
fn nothing_listed() {
    assert_eq!(parse_linux("").len(), 0);
    assert_eq!(parse_windows("").len(), 0);
    assert_eq!(parse_macos("").len(), 0);
}

#[test]
fn a_global_address_is_preferred() {
    let all = vec![
        address("eth0", "fe80::1", Scope::LinkLocal),
        address("eth0", "2001:db8::1", Scope::Global),
        address("zt0", "fd00::2", Scope::Global),
    ];
    assert_eq!(get_best_ipv6(&all, ""), "2001:db8::1");
    assert_eq!(get_best_ipv6(&all, "zt0"), "fd00::2");
    assert_eq!(get_best_ipv6(&all, "none"), "::1");
    assert_eq!(get_best_ipv6(&all[..1].iter().map(|i| address(&i.name, &i.ip, i.scope)).collect(), ""), "fe80::1");
    assert_eq!(get_best_ipv6(&Vec::new(), ""), "::1");
}

#[test]
fn adapters_are_named_once() {
    let all = vec![
        address("eth0", "fe80::1", Scope::LinkLocal),
        address("lo", "fe80::2", Scope::LinkLocal),
        address("docker0", "fe80::3", Scope::LinkLocal),
        address("veth12", "fe80::4", Scope::LinkLocal),
        address("eth0", "2001:db8::1", Scope::Global),
        address("zt0", "fd00::2", Scope::Global),
    ];
    assert_eq!(get_adapter_names(&all), vec!["eth0".to_string(), "zt0".to_string()]);
}

#[test]
fn peers_by_nickname_and_fingerprint() {
    assert_eq!(format_peer_display("ann", "AB12"), "ann #AB12");
    assert_eq!(format_peer_display("", "AB12"), "AB12");
}

#[test]
fn addresses_are_masked() {
    assert_eq!(censor_ip("2001:db8::1"), "2001:****");
    assert_eq!(censor_ip("192.168.1.2"), "192.***.***");
    assert_eq!(censor_ip("::1"), "::1");
    assert_eq!(censor_ip("host"), "****");
    assert_eq!(censor_ip(""), "");
}

#[test]
fn masked_addresses_with_one_beginning_look_alike() {
    assert_eq!(censor_ip("2001:db8::1"), censor_ip("2001:0:1::2"));
    for ip in ["2001:db8::1", "192.168.1.2", "::1", "host", "", ":", "."] {
        assert_eq!(censor_ip(&censor_ip(ip)), censor_ip(ip));
    }
}

#[test]
fn socket_addresses_are_bracketed() {
    assert_eq!(socket_address("::1", "9000"), "[::1]:9000");
}

#[test]
fn addresses_are_shown_on_demand() {
    assert_eq!(show_address("2001:db8::1", true), "2001:db8::1");
    assert_eq!(show_address("2001:db8::1", false), "2001:****");
    let mut c = Contact {
        fingerprint: String::new(),
        pubkey: [0u8; 32],
        nickname: String::new(),
        contact_id: String::new(),
        first_seen: String::new(),
        last_seen: String::new(),
        last_address: "fd00::5".to_string(),
        last_port: "9000".to_string(),
        call_count: 0,
    };
    assert_eq!(last_address_line(&c, true), Some("[fd00::5]:9000".to_string()));
    assert_eq!(last_address_line(&c, false), Some("[fd00:****]:9000".to_string()));
    c.last_address = String::new();
    assert_eq!(last_address_line(&c, true), None);
}
