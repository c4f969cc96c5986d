use oaifai::netplan::{generate_netplan, yaml_escape};

#[test]
fn netplan_with_password() {
    let y = generate_netplan("wlp1s0", "MyNet", "secret123");
    assert!(y.contains("renderer: networkd"));
    assert!(y.contains("\"MyNet\":"));
    assert!(y.contains("password: \"secret123\""));
    assert!(y.contains("dhcp4: true"));
}

#[test]
fn netplan_open_network() {
    let y = generate_netplan("wlp1s0", "OpenNet", "");
    assert!(y.contains("\"OpenNet\": {}"));
    assert!(!y.contains("password:"));
}

#[test]
fn netplan_escapes_quotes() {
    let y = generate_netplan("wlp1s0", "we\"ird", "pa\\ss\"");
    assert!(y.contains("we\\\"ird"));
    assert!(y.contains("pa\\\\ss\\\""));
}

#[test]
fn netplan_documents_are_exact() {
    assert_eq!(
        generate_netplan("wlan0", "Home", "pw"),
        "network:\n  version: 2\n  renderer: networkd\n  wifis:\n    wlan0:\n      dhcp4: true\n      access-points:\n        \"Home\":\n          password: \"pw\"\n"
    );
    assert_eq!(
        generate_netplan("wlan0", "Home", ""),
        "network:\n  version: 2\n  renderer: networkd\n  wifis:\n    wlan0:\n      dhcp4: true\n      access-points:\n        \"Home\": {}\n"
    );
}

#[test]
fn escaping_is_two_replacements() {
    for s in ["", "plain", "\\", "\"", "\\\"", "a\\\\b\"\"c", "ü\\\u{1F600}\""] {
        assert_eq!(
            yaml_escape(s),
            s.replace('\\', "\\\\").replace('"', "\\\"")
        );
    }
}

#[test]
fn different_requests_have_different_documents() {
    let requests = [
        ("a", ""),
        ("a", "b"),
        ("a\": {}\n", ""),
        ("a\":\n          password: \"b", ""),
        ("a\\", "b"),
        ("a\"", "b"),
    ];
    for (i, r) in requests.iter().enumerate() {
        for (j, s) in requests.iter().enumerate() {
            let same = generate_netplan("w", r.0, r.1) == generate_netplan("w", s.0, s.1);
            assert_eq!(same, i == j);
        }
    }
}
