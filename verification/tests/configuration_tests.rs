use wireguard_configure::addrport::AddrPort;
use wireguard_configure::configuration::{example_configuration, Configuration};
use wireguard_configure::endpoint::{Peer, Router, TableType};
use wireguard_configure::netaddr::{is_valid_ip_addr, is_valid_ip_net, IpNetwork};
use wireguard_configure::textfmt::u64_to_string;
use wireguard_configure::ConfigError;

fn sample_router() -> Router {
    Router::new(
        "vpn-router".to_string(),
        IpNetwork::new("10.0.1.0/24".to_string()),
        AddrPort::new("vpn.com".to_string(), 31337),
        "rpriv".to_string(),
        "rpub".to_string(),
    )
}

fn sample_peer(name: &str, addr: &str) -> Peer {
    Peer::new(
        name.to_string(),
        addr.to_string(),
        format!("{}-priv", name),
        format!("{}-pub", name),
    )
}

#[test]
fn router_interface_with_all_optionals() {
    let router = sample_router()
        .with_mtu(Some(1400))
        .with_table(Some(TableType::Auto))
        .with_preup(Some("echo pre-up".to_string()))
        .with_postup(Some("echo post-up".to_string()))
        .with_predown(Some("echo pre-down".to_string()))
        .with_postdown(Some("echo post-down".to_string()));
    let expected = "# vpn-router\n\
                    [Interface]\n\
                    Address = 10.0.1.0/24\n\
                    PrivateKey = rpriv\n\
                    ListenPort = 31337\n\
                    MTU = 1400\n\
                    Table = auto\n\
                    PreUp = echo pre-up\n\
                    PostUp = echo post-up\n\
                    PreDown = echo pre-down\n\
                    PostDown = echo post-down";
    assert_eq!(router.interface_str(), expected);
}

#[test]
fn router_interface_without_optionals() {
    let expected = "# vpn-router\n\
                    [Interface]\n\
                    Address = 10.0.1.0/24\n\
                    PrivateKey = rpriv\n\
                    ListenPort = 31337";
    assert_eq!(sample_router().interface_str(), expected);
}

#[test]
fn router_interface_single_optional() {
    let router = sample_router().with_table(Some(TableType::Custom(42)));
    let text = router.interface_str();
    assert_eq!(text.lines().count(), 6);
    assert_eq!(text.lines().last().unwrap(), "Table = 42");
    assert!(!text.contains("MTU"));
    assert!(!text.contains("PreUp"));
}

#[test]
fn peer_interface_present_iff_private_key() {
    let mut peer = sample_peer("client-a", "10.0.1.2");
    assert!(peer.interface_str().is_some());
    peer.set_private_key(None);
    assert!(peer.interface_str().is_none());
    peer.set_private_key(Some("again".to_string()));
    assert!(peer.interface_str().is_some());
}

#[test]
fn peer_interface_exact_text() {
    let peer = sample_peer("client-a", "10.0.1.2")
        .with_dns(Some("10.0.1.1".to_string()))
        .with_mtu(Some(1280));
    let expected = "# client-a\n\
                    [Interface]\n\
                    PrivateKey = client-a-priv\n\
                    Address = 10.0.1.2\n\
                    DNS = 10.0.1.1\n\
                    MTU = 1280";
    assert_eq!(peer.interface_str().unwrap(), expected);
}

#[test]
fn router_peer_str_keepalive_between_key_and_networks() {
    let router = sample_router();
    let peer = sample_peer("client-a", "10.0.1.2")
        .with_allowed_ips(IpNetwork::new("0.0.0.0/0".to_string()))
        .with_allowed_ips(IpNetwork::new("10.0.1.0/24".to_string()))
        .with_keepalive(Some(25));
    let expected = "# client-a\n\
                    [Peer]\n\
                    PublicKey = client-a-pub\n\
                    PersistentKeepalive = 25\n\
                    AllowedIPs = 0.0.0.0/0, 10.0.1.0/24";
    assert_eq!(router.peer_str(&peer), expected);
}

#[test]
fn router_peer_str_without_keepalive() {
    let router = sample_router();
    let peer =
        sample_peer("client-b", "10.0.1.3").with_allowed_ips(IpNetwork::new("10.0.1.0/24".to_string()));
    let expected = "# client-b\n\
                    [Peer]\n\
                    PublicKey = client-b-pub\n\
                    AllowedIPs = 10.0.1.0/24";
    assert_eq!(router.peer_str(&peer), expected);
}

#[test]
fn peer_peer_str_points_at_router() {
    let router = sample_router();
    let peer = sample_peer("client-a", "10.0.1.2")
        .with_allowed_ips(IpNetwork::new("0.0.0.0/0".to_string()))
        .with_keepalive(Some(25));
    let expected = "# vpn-router\n\
                    [Peer]\n\
                    PublicKey = rpub\n\
                    Endpoint = vpn.com:31337\n\
                    PersistentKeepalive = 25\n\
                    AllowedIPs = 0.0.0.0/0";
    assert_eq!(peer.peer_str(&router), expected);
}

#[test]
fn client_config_example_scenario() {
    let mut config = Configuration::new(sample_router());
    config.push_peer(
        sample_peer("client-a", "10.0.1.2")
            .with_allowed_ips(IpNetwork::new("0.0.0.0/0".to_string()))
            .with_keepalive(Some(25))
            .with_dns(Some("10.0.1.1".to_string())),
    );
    let text = config.client_config("client-a").expect("client-a should render");
    let expected = "# client-a\n\
                    [Interface]\n\
                    PrivateKey = client-a-priv\n\
                    Address = 10.0.1.2\n\
                    DNS = 10.0.1.1\n\
                    \n\
                    # vpn-router\n\
                    [Peer]\n\
                    PublicKey = rpub\n\
                    Endpoint = vpn.com:31337\n\
                    PersistentKeepalive = 25\n\
                    AllowedIPs = 0.0.0.0/0";
    assert_eq!(text, expected);
    assert!(text.contains("Address = 10.0.1.2"));
    assert!(text.contains("DNS = 10.0.1.1"));
    assert!(text.contains("Endpoint = vpn.com:31337"));
    assert!(text.contains("PersistentKeepalive = 25"));
    assert!(text.contains("AllowedIPs = 0.0.0.0/0"));
}

#[test]
fn client_config_absent_for_unknown_or_keyless() {
    let mut config = Configuration::new(sample_router());
    let mut keyless = sample_peer("client-b", "10.0.1.3");
    keyless.set_private_key(None);
    config.push_peer(keyless);
    assert!(config.client_config("nobody").is_none());
    assert!(config.client_config("client-b").is_none());
}

#[test]
fn roundtrip_example_configuration() {
    let original = example_configuration(
        "rpriv".to_string(),
        "rpub".to_string(),
        "apriv".to_string(),
        "apub".to_string(),
        "bpriv".to_string(),
        "bpub".to_string(),
    );
    let text = original.to_text();
    let reloaded = Configuration::from_text(&text).expect("rendered text should parse");
    assert_eq!(reloaded.router.name, original.router.name);
    assert_eq!(reloaded.router.private_key, original.router.private_key);
    assert_eq!(reloaded.router.external_address.port, 31337);
    assert_eq!(reloaded.clients.len(), 2);
    assert_eq!(reloaded.clients[0].name, "client-a");
    assert_eq!(reloaded.clients[0].persistent_keepalive, Some(25));
    assert_eq!(reloaded.clients[1].name, "client-b");
    assert_eq!(reloaded.to_text(), text);
}

#[test]
fn roundtrip_every_field_set() {
    let router = sample_router()
        .with_mtu(Some(1400))
        .with_table(Some(TableType::Custom(7)))
        .with_preup(Some("a b c".to_string()))
        .with_postup(Some("d=e".to_string()))
        .with_predown(Some("f".to_string()))
        .with_postdown(Some("g".to_string()));
    let mut config = Configuration::new(router);
    let mut keyless = sample_peer("no-key", "10.0.1.9")
        .with_vec_allowed_ips(vec![
            IpNetwork::new("10.0.0.0/8".to_string()),
            IpNetwork::new("192.168.0.0/16".to_string()),
        ])
        .with_mtu(Some(1300))
        .with_table(Some(TableType::Off));
    keyless.set_private_key(None);
    config.push_peer(keyless);
    config.push_peer(
        sample_peer("full", "10.0.1.10")
            .with_allowed_ips(IpNetwork::new("0.0.0.0/0".to_string()))
            .with_dns(Some("1.1.1.1".to_string()))
            .with_keepalive(Some(3600)),
    );
    let text = config.to_text();
    let reloaded = Configuration::from_text(&text).expect("rendered text should parse");
    assert_eq!(reloaded.clients.len(), 2);
    assert!(reloaded.clients[0].private_key.is_none());
    assert_eq!(reloaded.clients[0].allowed_ips.len(), 2);
    assert_eq!(reloaded.clients[0].allowed_ips[1].text, "192.168.0.0/16");
    assert!(matches!(reloaded.clients[0].table, Some(TableType::Off)));
    assert_eq!(reloaded.clients[1].dns, Some("1.1.1.1".to_string()));
    assert_eq!(reloaded.clients[1].persistent_keepalive, Some(3600));
    assert!(matches!(reloaded.router.table, Some(TableType::Custom(7))));
    assert_eq!(reloaded.router.preup, Some("a b c".to_string()));
    assert_eq!(reloaded.router.postup, Some("d=e".to_string()));
    assert_eq!(reloaded.to_text(), text);
}

#[test]
fn roundtrip_no_peers() {
    let config = Configuration::new(sample_router());
    let text = config.to_text();
    let reloaded = Configuration::from_text(&text).expect("rendered text should parse");
    assert_eq!(reloaded.clients.len(), 0);
    assert_eq!(reloaded.to_text(), text);
}

#[test]
fn remove_peer_by_name_absent_changes_nothing() {
    let mut config = Configuration::new(sample_router());
    config.push_peer(sample_peer("client-a", "10.0.1.2"));
    config.push_peer(sample_peer("client-b", "10.0.1.3"));
    assert!(!config.remove_peer_by_name("client-c"));
    assert_eq!(config.clients.len(), 2);
    assert_eq!(config.clients[0].name, "client-a");
    assert_eq!(config.clients[1].name, "client-b");
}

#[test]
fn remove_peer_by_name_removes_all_matches() {
    let mut config = Configuration::new(sample_router());
    config.push_peer(sample_peer("dup", "10.0.1.2"));
    config.push_peer(sample_peer("keep", "10.0.1.3"));
    config.push_peer(sample_peer("dup", "10.0.1.4"));
    assert!(config.remove_peer_by_name("dup"));
    assert_eq!(config.clients.len(), 1);
    assert_eq!(config.clients[0].name, "keep");
}

#[test]
fn find_first_match_among_duplicates() {
    let mut config = Configuration::new(sample_router());
    config.push_peer(sample_peer("dup", "10.0.1.2"));
    config.push_peer(sample_peer("dup", "10.0.1.4"));
    let found = config.client_by_name("dup").expect("dup should be found");
    assert_eq!(found.internal_address, "10.0.1.2");
    assert!(config.client_by_name("missing").is_none());
}

#[test]
fn invalid_extension_rejected_before_parsing() {
    let valid_text = Configuration::new(sample_router()).to_text();
    match Configuration::open_from_text("wg0.json", &valid_text) {
        Err(ConfigError::InvalidExtension) => {},
        other => panic!("expected InvalidExtension, got {:?}", other),
    }
    match Configuration::open_from_text("wg0", "whatever") {
        Err(ConfigError::InvalidExtension) => {},
        other => panic!("expected InvalidExtension, got {:?}", other),
    }
}

#[test]
fn open_from_text_attaches_metadata() {
    let text = Configuration::new(sample_router()).to_text();
    let config =
        Configuration::open_from_text("/etc/wireguard/wg0.toml", &text).expect("should open");
    let meta = config.metadata.as_ref().expect("metadata should be attached");
    assert_eq!(meta.name, Some("wg0".to_string()));
    assert_eq!(meta.path, Some("/etc/wireguard/wg0.toml".to_string()));
    assert!(!config.is_from_tty());
    assert_eq!(config.save_destination(), Ok("/etc/wireguard/wg0.toml".to_string()));
}

#[test]
fn malformed_content_is_a_deserialization_error() {
    match Configuration::from_text("not a configuration") {
        Err(ConfigError::DeserializationError) => {},
        other => panic!("expected DeserializationError, got {:?}", other),
    }
    match Configuration::open_from_text("wg0.toml", "router\nname=x") {
        Err(ConfigError::DeserializationError) => {},
        other => panic!("expected DeserializationError, got {:?}", other),
    }
}

#[test]
fn bad_address_is_a_deserialization_error() {
    let text = "router\n\
                name=r\n\
                internal_address=not-a-network\n\
                external_host=h\n\
                external_port=1\n\
                private_key=a\n\
                public_key=b";
    match Configuration::from_text(text) {
        Err(ConfigError::DeserializationError) => {},
        other => panic!("expected DeserializationError, got {:?}", other),
    }
    let good = text.replace("not-a-network", "10.0.0.0/24");
    assert!(Configuration::from_text(&good).is_ok());
}

#[test]
fn save_without_destination_fails() {
    let fresh = Configuration::new(sample_router());
    assert!(fresh.is_from_tty());
    match fresh.save_destination() {
        Err(ConfigError::NoDestination) => {},
        other => panic!("expected NoDestination, got {:?}", other),
    }
    match fresh.with_name("wg0").save_destination() {
        Err(ConfigError::NoDestination) => {},
        other => panic!("expected NoDestination, got {:?}", other),
    }
}

#[test]
fn duplicate_peer_name_is_refused() {
    let mut config = Configuration::new(sample_router());
    assert!(config.add_client(sample_peer("client-a", "10.0.1.2")).is_ok());
    match config.add_client(sample_peer("client-a", "10.0.1.3")) {
        Err(ConfigError::DuplicatePeerName) => {},
        other => panic!("expected DuplicatePeerName, got {:?}", other),
    }
    assert_eq!(config.clients.len(), 1);
}

#[test]
fn table_type_parses_case_insensitively() {
    assert_eq!(TableType::parse("off"), Some(TableType::Off));
    assert_eq!(TableType::parse("OFF"), Some(TableType::Off));
    assert_eq!(TableType::parse("Auto"), Some(TableType::Auto));
    assert_eq!(TableType::parse("auto"), Some(TableType::Auto));
    assert_eq!(TableType::parse("123"), Some(TableType::Custom(123)));
    assert_eq!(TableType::parse("4294967295"), Some(TableType::Custom(u32::MAX)));
    assert_eq!(TableType::parse("4294967296"), None);
    assert_eq!(TableType::parse("offf"), None);
    assert_eq!(TableType::parse(""), None);
}

#[test]
fn table_type_renders() {
    assert_eq!(TableType::Off.to_display_string(), "off");
    assert_eq!(TableType::Auto.to_display_string(), "auto");
    assert_eq!(TableType::Custom(42).to_display_string(), "42");
}

#[test]
fn decimal_rendering_exact() {
    assert_eq!(u64_to_string(0), "0");
    assert_eq!(u64_to_string(31337), "31337");
    assert_eq!(u64_to_string(u64::MAX), "18446744073709551615");
}

#[test]
fn address_validation_through_ipnet() {
    assert!(is_valid_ip_net("10.0.0.0/24"));
    assert!(is_valid_ip_net("::1/128"));
    assert!(!is_valid_ip_net("10.0.0.0"));
    assert!(!is_valid_ip_net("vpn.com/24"));
    assert!(is_valid_ip_addr("10.0.1.2"));
    assert!(is_valid_ip_addr("::1"));
    assert!(!is_valid_ip_addr("10.0.1.2/24"));
    assert!(!is_valid_ip_addr("vpn.com"));
    assert!(IpNetwork::new("10.0.1.0/24".to_string()).is_valid());
    assert!(!IpNetwork::new("bogus".to_string()).is_valid());
}

#[test]
fn addr_port_renders_host_and_port() {
    assert_eq!(AddrPort::new("vpn.com".to_string(), 31337).to_display_string(), "vpn.com:31337");
    assert_eq!(AddrPort::new("h".to_string(), 0).to_display_string(), "h:0");
    assert_eq!(AddrPort::new("h".to_string(), 65535).to_display_string(), "h:65535");
}

#[test]
fn router_config_joins_sections() {
    let mut config = Configuration::new(sample_router());
    config.push_peer(
        sample_peer("client-a", "10.0.1.2")
            .with_allowed_ips(IpNetwork::new("0.0.0.0/0".to_string())),
    );
    let text = config.router_config();
    let expected = format!(
        "{}\n\n{}",
        config.router.interface_str(),
        config.router.peer_str(&config.clients[0]),
    );
    assert_eq!(text, expected);
}

#[test]
fn path_for_name_resolves_canonically() {
    assert_eq!(Configuration::path_for_name("wg0"), "/etc/wireguard/wg0.toml");
}

#[test]
fn allowed_ips_join_with_any_separator() {
    let peer = sample_peer("client-a", "10.0.1.2").with_vec_allowed_ips(vec![
        IpNetwork::new("10.0.0.0/8".to_string()),
        IpNetwork::new("0.0.0.0/0".to_string()),
    ]);
    assert_eq!(peer.allowed_ips_joined(", "), "10.0.0.0/8, 0.0.0.0/0");
    assert_eq!(peer.allowed_ips_joined(","), "10.0.0.0/8,0.0.0.0/0");
    assert_eq!(sample_peer("x", "10.0.1.2").allowed_ips_joined(", "), "");
}

#[test]
fn port_bounds_roundtrip() {
    let mut router = sample_router();
    router.set_external_address(AddrPort::new("vpn.com".to_string(), 65535));
    let config = Configuration::new(router);
    let reloaded = Configuration::from_text(&config.to_text()).expect("should parse");
    assert_eq!(reloaded.router.external_address.port, 65535);
    assert_eq!(reloaded.router.external_address.address, "vpn.com");
}

#[test]
fn out_of_range_port_is_rejected() {
    let text = "router\n\
                name=r\n\
                internal_address=10.0.0.0/24\n\
                external_host=h\n\
                external_port=65536\n\
                private_key=a\n\
                public_key=b";
    match Configuration::from_text(text) {
        Err(ConfigError::DeserializationError) => {},
        other => panic!("expected DeserializationError, got {:?}", other),
    }
}

#[test]
fn parses_handwritten_document() {
    let text = "router\n\
                name=edge\n\
                internal_address=192.168.0.1/24\n\
                external_host=example.org\n\
                external_port=51820\n\
                private_key=K1\n\
                public_key=K2\n\
                mtu=1420\n\
                peer\n\
                name=laptop\n\
                internal_address=192.168.0.2\n\
                allowed_ip=0.0.0.0/0\n\
                dns=192.168.0.1\n\
                persistent_keepalive=25\n\
                private_key=K3\n\
                public_key=K4\n\
                table=off";
    let config = Configuration::from_text(text).expect("document should parse");
    assert_eq!(config.router.name, "edge");
    assert_eq!(config.router.external_address.port, 51820);
    assert_eq!(config.router.mtu, Some(1420));
    assert_eq!(config.clients.len(), 1);
    let peer = &config.clients[0];
    assert_eq!(peer.name, "laptop");
    assert_eq!(peer.allowed_ips.len(), 1);
    assert_eq!(peer.allowed_ips[0].text, "0.0.0.0/0");
    assert_eq!(peer.dns, Some("192.168.0.1".to_string()));
    assert_eq!(peer.private_key, Some("K3".to_string()));
    assert!(matches!(peer.table, Some(TableType::Off)));
}

#[test]
fn document_grammar_is_strict() {
    let good = Configuration::new(sample_router()).to_text();
    assert!(Configuration::from_text(&good).is_ok());
    // a trailing line break leaves a dangling empty line
    assert!(Configuration::from_text(&format!("{}\n", good)).is_err());
    // fields must keep their fixed order
    let swapped = "router\n\
                   internal_address=10.0.0.0/24\n\
                   name=r\n\
                   external_host=h\n\
                   external_port=1\n\
                   private_key=a\n\
                   public_key=b";
    assert!(Configuration::from_text(swapped).is_err());
}
