use mdns::dnssd::{
    add_instance, keep_first, on_addr, on_browse, on_resolve, port_from_network, Instance,
    Resolved, FLAGS_ADD,
};
use mdns::net::Ipv4Addr;

fn instance(name: &str) -> Instance {
    Instance {
        name: name.to_string(),
        regtype: "_rpc._tcp.".to_string(),
        domain: "local.".to_string(),
    }
}

fn sockaddr(family: u8, ip: [u8; 4]) -> [u8; 128] {
    let mut bytes = [0u8; 128];
    bytes[0] = 16;
    bytes[1] = family;
    bytes[4..8].copy_from_slice(&ip);
    bytes
}

#[test]
fn added_instances_are_collected() {
    let mut found = vec![];
    on_browse(&mut found, FLAGS_ADD, 0, b"a", b"_rpc._tcp.", b"local.");
    on_browse(&mut found, 0x3, 0, b"b", b"_rpc._tcp.", b"local.");
    assert_eq!(found, vec![instance("a"), instance("b")]);
}

#[test]
fn removals_and_errors_are_ignored() {
    let mut found = vec![];
    on_browse(&mut found, 0, 0, b"a", b"_rpc._tcp.", b"local.");
    on_browse(&mut found, 0x1, 0, b"a", b"_rpc._tcp.", b"local.");
    on_browse(&mut found, FLAGS_ADD, -65537, b"a", b"_rpc._tcp.", b"local.");
    assert_eq!(found, vec![]);
}

#[test]
fn instance_is_added_with_the_flag_only() {
    let mut found = vec![];
    add_instance(&mut found, 0xfffffffd, 0, instance("a"));
    add_instance(&mut found, 2, 0, instance("b"));
    assert_eq!(found, vec![instance("b")]);
}

#[test]
fn instance_names_are_read_lossily() {
    let mut found = vec![];
    on_browse(&mut found, FLAGS_ADD, 0, &[97, 0xff], b"_rpc._tcp.", b"local.");
    assert_eq!(found, vec![instance("a\u{fffd}")]);
}

#[test]
fn port_is_in_network_order() {
    assert_eq!(port_from_network([0x1f, 0x90]), 8080);
    assert_eq!(port_from_network([0xff, 0xff]), 65535);
    assert_eq!(u16::from_be(0x1234u16), port_from_network(0x1234u16.to_ne_bytes()));
}

#[test]
fn first_resolve_reply_is_recorded() {
    let mut slot = None;
    on_resolve(&mut slot, -1, b"err", b"err", [0, 0], &[]);
    assert_eq!(slot, None);
    on_resolve(&mut slot, 0, b"a._rpc._tcp.local.", b"a.local.", [0x1f, 0x90], &[1, 120]);
    on_resolve(&mut slot, 0, b"b._rpc._tcp.local.", b"b.local.", [0, 80], &[]);
    assert_eq!(
        slot,
        Some(Resolved {
            fullname: "a._rpc._tcp.local.".to_string(),
            host: "a.local.".to_string(),
            port: 8080,
            txt: vec!["x".to_string()],
        })
    );
}

#[test]
fn first_value_is_kept() {
    let mut slot = None;
    keep_first(&mut slot, 1, 'a');
    assert_eq!(slot, None);
    keep_first(&mut slot, 0, 'b');
    keep_first(&mut slot, 0, 'c');
    assert_eq!(slot, Some('b'));
}

#[test]
fn first_address_is_recorded() {
    let mut slot = None;
    on_addr(&mut slot, 0, Some(sockaddr(2, [192, 168, 1, 7])));
    on_addr(&mut slot, 0, Some(sockaddr(2, [192, 168, 1, 8])));
    assert_eq!(slot, Some(Ipv4Addr::new(192, 168, 1, 7)));
}

#[test]
fn other_addresses_are_ignored() {
    let mut slot = None;
    on_addr(&mut slot, 0, None);
    on_addr(&mut slot, -1, Some(sockaddr(2, [192, 168, 1, 7])));
    on_addr(&mut slot, 0, Some(sockaddr(30, [192, 168, 1, 7])));
    on_addr(&mut slot, 0, Some(sockaddr(2, [0, 0, 0, 0])));
    assert_eq!(slot, None);
    on_addr(&mut slot, 0, Some(sockaddr(2, [0, 0, 0, 1])));
    assert_eq!(slot, Some(Ipv4Addr::new(0, 0, 0, 1)));
}

#[test]
fn unspecified_address() {
    assert!(Ipv4Addr::new(0, 0, 0, 0).is_unspecified());
    assert!(!Ipv4Addr::new(0, 0, 0, 1).is_unspecified());
}
