use git2p::registry::{is_blank, white_space, PeerRegistry, RegistryError};

fn s(text: &str) -> String {
    text.to_string()
}

#[test]
fn remember_same_address_many_times_keeps_one() {
    let mut reg = PeerRegistry::new();
    assert!(reg.remember(s("/ip4/127.0.0.1/tcp/4001")));
    for _ in 0..5 {
        assert!(!reg.remember(s("/ip4/127.0.0.1/tcp/4001")));
    }
    assert_eq!(reg.len(), 1);
}

#[test]
fn remember_keeps_first_seen_order() {
    let mut reg = PeerRegistry::new();
    reg.remember(s("/ip4/10.0.0.2/tcp/1"));
    reg.remember(s("/ip4/10.0.0.1/tcp/1"));
    reg.remember(s("/ip4/10.0.0.2/tcp/1"));
    assert_eq!(reg.addresses(), vec![s("/ip4/10.0.0.2/tcp/1"), s("/ip4/10.0.0.1/tcp/1")]);
    assert!(reg.contains(&s("/ip4/10.0.0.1/tcp/1")));
    assert!(!reg.contains(&s("/ip4/10.0.0.3/tcp/1")));
}

#[test]
fn blank_text_loads_empty() {
    assert_eq!(PeerRegistry::from_json("").unwrap().len(), 0);
    assert_eq!(PeerRegistry::from_json("  \n\t").unwrap().len(), 0);
    assert_eq!(PeerRegistry::from_json("[]").unwrap().len(), 0);
}

#[test]
fn load_keeps_first_of_repeated_addresses() {
    let text = r#"["/ip4/127.0.0.1/tcp/4001", "/ip6/::1/tcp/5", "/ip4/127.0.0.1/tcp/4001"]"#;
    let reg = PeerRegistry::from_json(text).unwrap();
    assert_eq!(reg.addresses(), vec![s("/ip4/127.0.0.1/tcp/4001"), s("/ip6/::1/tcp/5")]);
}

#[test]
fn load_rejects_malformed_address() {
    let text = r#"["/ip4/127.0.0.1/tcp/4001", "not an address"]"#;
    assert_eq!(PeerRegistry::from_json(text).unwrap_err(), RegistryError::MalformedAddress);
    assert_eq!(PeerRegistry::from_json(r#"["/ip4/1.2.3.4/tcp/x"]"#).unwrap_err(), RegistryError::MalformedAddress);
}

#[test]
fn load_rejects_text_that_is_no_string_array() {
    assert_eq!(PeerRegistry::from_json("{").unwrap_err(), RegistryError::Malformed);
    assert_eq!(PeerRegistry::from_json("[1, 2]").unwrap_err(), RegistryError::Malformed);
}

#[test]
fn persisted_form_is_pretty_json_array() {
    let mut reg = PeerRegistry::new();
    assert_eq!(reg.to_json(), "[]");
    reg.remember(s("/ip4/127.0.0.1/tcp/4001"));
    reg.remember(s("/ip4/10.0.0.1/tcp/7"));
    let text = reg.to_json();
    assert_eq!(text, "[\n  \"/ip4/127.0.0.1/tcp/4001\",\n  \"/ip4/10.0.0.1/tcp/7\"\n]");
    assert_eq!(PeerRegistry::from_json(&text).unwrap().addresses(), reg.addresses());
}

#[test]
fn white_space_follows_unicode() {
    assert!(white_space(' ') && white_space('\n') && white_space('\u{3000}') && white_space('\u{85}'));
    assert!(!white_space('a') && !white_space('\u{200b}') && !white_space('['));
    assert!(is_blank("") && is_blank(" \t\r\n\u{a0}"));
    assert!(!is_blank(" [] "));
}

#[test]
fn repeated_remember_persists_one_address() {
    let mut reg = PeerRegistry::from_json("[]").unwrap();
    for _ in 0..3 {
        reg.remember(s("/ip4/127.0.0.1/tcp/4001"));
    }
    let text = reg.to_json();
    assert_eq!(text, "[\n  \"/ip4/127.0.0.1/tcp/4001\"\n]");
    assert_eq!(PeerRegistry::from_json(&text).unwrap().addresses(), vec![s("/ip4/127.0.0.1/tcp/4001")]);
}
