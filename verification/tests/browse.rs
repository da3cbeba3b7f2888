use mdns::browse::{do_addr, do_resolve, Action, Browser, Event, Operation, ResolveRequest};
use mdns::dnssd::{Instance, Resolved};
use mdns::macos::{build_response, macos_listen};
use mdns::net::Ipv4Addr;
use mdns::response::{Class, Record, RecordKind, Response};
use std::time::Duration;

const SVC: &str = "_rpc._tcp.local";

fn instance(name: &str) -> Instance {
    Instance {
        name: name.to_string(),
        regtype: "_rpc._tcp.".to_string(),
        domain: "local.".to_string(),
    }
}

fn resolved(name: &str) -> Resolved {
    Resolved {
        fullname: format!("{}._rpc._tcp.local.", name),
        host: format!("{}.local.", name),
        port: 8080,
        txt: vec!["grpc=true".to_string()],
    }
}

fn ip() -> Ipv4Addr {
    Ipv4Addr::new(192, 168, 1, 7)
}

fn record(name: &str, kind: RecordKind) -> Record {
    Record { name: name.to_string(), class: Class::IN, ttl: 120, kind }
}

fn response(name: &str) -> Response {
    let fullname = format!("{}._rpc._tcp.local", name);
    Response {
        answers: vec![record(SVC, RecordKind::PTR(fullname.clone()))],
        nameservers: vec![],
        additional: vec![
            record(&fullname, RecordKind::A(ip())),
            record(
                &fullname,
                RecordKind::SRV { priority: 0, weight: 0, port: 8080, target: fullname.clone() },
            ),
            record(&fullname, RecordKind::TXT(vec!["grpc=true".to_string()])),
        ],
    }
}

fn waits(browser: &Browser) -> bool {
    matches!(
        browser.action(),
        Action::Wait { operation: Operation::Browse, nanos: 100_000_000 }
    )
}

fn resolves(browser: &Browser, name: &str) -> bool {
    match browser.action() {
        Action::Resolve { request } => request.name == [name.as_bytes(), &[0]].concat(),
        _ => false,
    }
}

/// A browser that has processed a result which added `names`.
fn browsed(names: &[&str]) -> Browser {
    let browser = Browser::new(SVC.to_string());
    let browser = browser.step(Event::Started { err: 0 });
    found(browser, names)
}

fn found(browser: Browser, names: &[&str]) -> Browser {
    assert!(waits(&browser));
    let browser = browser.step(Event::Waited { readable: true });
    assert!(matches!(browser.action(), Action::Process { operation: Operation::Browse }));
    let found = names.iter().map(|name| instance(name)).collect();
    browser.step(Event::Browsed { err: 0, found })
}

/// The browser after the lookup that it asks for has found `resolved`.
fn looked_up(browser: Browser, resolved: Resolved) -> Browser {
    let browser = browser.step(Event::Started { err: 0 });
    assert!(matches!(browser.action(), Action::Clock));
    let browser = browser.step(Event::Clock { elapsed: 0 });
    assert!(matches!(
        browser.action(),
        Action::Wait { operation: Operation::Resolve, nanos: 100_000_000 }
    ));
    let browser = browser.step(Event::Waited { readable: true });
    assert!(matches!(browser.action(), Action::Process { operation: Operation::Resolve }));
    let browser = browser.step(Event::Resolved { err: 0, found: Some(resolved) });
    assert!(matches!(browser.action(), Action::Release { operation: Operation::Resolve }));
    browser.step(Event::Released)
}

/// The browser after the address lookup that it asks for has found an address.
fn addressed(browser: Browser) -> Browser {
    let browser = browser.step(Event::Started { err: 0 });
    let browser = browser.step(Event::Clock { elapsed: 1_950_000_000 });
    assert!(matches!(
        browser.action(),
        Action::Wait { operation: Operation::AddrInfo, nanos: 50_000_000 }
    ));
    let browser = browser.step(Event::Waited { readable: true });
    assert!(matches!(browser.action(), Action::Process { operation: Operation::AddrInfo }));
    let browser = browser.step(Event::Addressed { err: 0, found: Some(ip()) });
    assert!(matches!(browser.action(), Action::Release { operation: Operation::AddrInfo }));
    browser.step(Event::Released)
}

#[test]
fn response_is_built() {
    let built = build_response(
        SVC,
        "a._rpc._tcp.local",
        ip(),
        8080,
        &["grpc=true".to_string()],
    );
    assert_eq!(built, response("a"));
}

#[test]
fn request_holds_c_strings() {
    assert_eq!(
        do_resolve("a", "_r._t.", "l."),
        Some(ResolveRequest {
            name: b"a\0".to_vec(),
            regtype: b"_r._t.\0".to_vec(),
            domain: b"l.\0".to_vec(),
        })
    );
    assert_eq!(do_resolve("a\0", "_r", "l"), None);
    assert_eq!(do_resolve("a", "_r\0", "l"), None);
    assert_eq!(do_resolve("a", "_r", "\0l"), None);
    assert_eq!(do_addr("a.local."), Some(b"a.local.\0".to_vec()));
    assert_eq!(do_addr("a\0b"), None);
}

#[test]
fn browse_is_started_with_type_and_domain() {
    let browser = macos_listen(SVC.to_string(), Duration::from_secs(15));
    match browser.action() {
        Action::Browse { regtype, domain } => {
            assert_eq!(regtype, b"_rpc._tcp\0");
            assert_eq!(domain, b"local.\0");
        }
        _ => panic!(),
    }
}

#[test]
fn service_name_with_a_nul_is_not_browsed() {
    assert!(matches!(Browser::new("_r\0pc.local".to_string()).action(), Action::Stop));
    assert!(matches!(Browser::new("_rpc.lo\0cal".to_string()).action(), Action::Stop));
}

#[test]
fn failed_browse_is_over() {
    let browser = Browser::new(SVC.to_string()).step(Event::Started { err: -65563 });
    assert!(matches!(browser.action(), Action::Stop));
}

#[test]
fn browse_is_polled_again() {
    let browser = Browser::new(SVC.to_string()).step(Event::Started { err: 0 });
    let browser = browser.step(Event::Waited { readable: false });
    assert!(waits(&browser));
    let browser = found(browser, &[]);
    assert!(waits(&browser));
}

#[test]
fn instance_is_announced() {
    let browser = browsed(&["a"]);
    assert!(resolves(&browser, "a"));
    let browser = looked_up(browser, resolved("a"));
    match browser.action() {
        Action::GetAddrInfo { host } => assert_eq!(host, b"a.local.\0"),
        _ => panic!(),
    }
    let browser = addressed(browser);
    match browser.action() {
        Action::Send { name, response: sent } => {
            assert_eq!(name, "a");
            assert_eq!(*sent, response("a"));
        }
        _ => panic!(),
    }
    let browser = browser.step(Event::Sent { closed: false });
    assert!(waits(&browser));
}

#[test]
fn instance_is_announced_once() {
    let browser = browsed(&["a", "a"]);
    let browser = addressed(looked_up(browser, resolved("a")));
    let browser = browser.step(Event::Sent { closed: false });
    let browser = found(browser, &["a", "b", "a"]);
    assert!(resolves(&browser, "b"));
    let browser = browser.step(Event::Started { err: -1 });
    assert!(waits(&browser));
    let browser = found(browser, &["b", "a"]);
    assert!(waits(&browser));
}

#[test]
fn pending_instances_are_taken_up_in_order() {
    let browser = browsed(&["a", "b", "c"]);
    assert!(resolves(&browser, "a"));
    let browser = browser.step(Event::Started { err: -1 });
    assert!(resolves(&browser, "b"));
    let browser = browser.step(Event::Started { err: -1 });
    assert!(resolves(&browser, "c"));
}

#[test]
fn instance_with_a_nul_is_skipped() {
    let browser = browsed(&["a\0", "b"]);
    assert!(resolves(&browser, "b"));
}

#[test]
fn resolve_that_times_out_is_released() {
    let browser = browsed(&["a", "b"]);
    let browser = browser.step(Event::Started { err: 0 });
    let browser = browser.step(Event::Clock { elapsed: 0 });
    let browser = browser.step(Event::Waited { readable: false });
    let browser = browser.step(Event::Clock { elapsed: 2_000_000_000 });
    assert!(matches!(browser.action(), Action::Release { operation: Operation::Resolve }));
    let browser = browser.step(Event::Released);
    assert!(resolves(&browser, "b"));
}

#[test]
fn resolve_that_fails_is_released() {
    let browser = browsed(&["a"]);
    let browser = browser.step(Event::Started { err: 0 });
    let browser = browser.step(Event::Clock { elapsed: 0 });
    let browser = browser.step(Event::Waited { readable: true });
    let browser = browser.step(Event::Resolved { err: 0, found: None });
    assert!(matches!(browser.action(), Action::Clock));
    let browser = browser.step(Event::Clock { elapsed: 1 });
    let browser = browser.step(Event::Waited { readable: true });
    let browser = browser.step(Event::Resolved { err: -1, found: None });
    assert!(matches!(browser.action(), Action::Release { operation: Operation::Resolve }));
    let browser = browser.step(Event::Released);
    assert!(waits(&browser));
}

#[test]
fn host_without_address_is_given_up() {
    let browser = looked_up(browsed(&["a"]), resolved("a"));
    let browser = browser.step(Event::Started { err: 0 });
    let browser = browser.step(Event::Clock { elapsed: 5_000_000_000 });
    assert!(matches!(browser.action(), Action::Release { operation: Operation::AddrInfo }));
    let browser = browser.step(Event::Released);
    assert!(waits(&browser));

    let browser = looked_up(browsed(&["a"]), resolved("a"));
    let browser = browser.step(Event::Started { err: -1 });
    assert!(waits(&browser));
}

#[test]
fn host_with_a_nul_is_given_up() {
    let mut bad = resolved("a");
    bad.host = "a\0b".to_string();
    let browser = looked_up(browsed(&["a"]), bad);
    assert!(waits(&browser));
}

#[test]
fn gone_receiver_ends_the_discovery() {
    let browser = addressed(looked_up(browsed(&["a", "b"]), resolved("a")));
    let browser = browser.step(Event::Sent { closed: true });
    assert!(matches!(browser.action(), Action::Release { operation: Operation::Browse }));
    let browser = browser.step(Event::Released);
    assert!(matches!(browser.action(), Action::Stop));
    let browser = browser.step(Event::Started { err: 0 });
    assert!(matches!(browser.action(), Action::Stop));
}

#[test]
fn failed_result_ends_the_discovery() {
    let browser = Browser::new(SVC.to_string()).step(Event::Started { err: 0 });
    let browser = browser.step(Event::Waited { readable: true });
    let browser = browser.step(Event::Browsed { err: -65563, found: vec![instance("a")] });
    assert!(matches!(browser.action(), Action::Release { operation: Operation::Browse }));
    let browser = browser.step(Event::Released);
    assert!(matches!(browser.action(), Action::Stop));
}

#[test]
fn other_events_change_nothing() {
    let browser = browsed(&["a"]);
    let browser = browser.step(Event::Waited { readable: true });
    let browser = browser.step(Event::Sent { closed: true });
    let browser = browser.step(Event::Released);
    assert!(resolves(&browser, "a"));
}

#[test]
fn fruitless_rounds_change_nothing() {
    let mut browser = browsed(&["a"]).step(Event::Started { err: 0 });
    for round in 0..5u128 {
        assert!(matches!(browser.action(), Action::Clock));
        browser = browser.step(Event::Clock { elapsed: round * 300_000_000 });
        browser = browser.step(Event::Waited { readable: false });
        assert!(matches!(browser.action(), Action::Clock));
        browser = browser.step(Event::Clock { elapsed: round * 300_000_000 + 1 });
        browser = browser.step(Event::Waited { readable: true });
        browser = browser.step(Event::Resolved { err: 0, found: None });
    }
    assert!(matches!(browser.action(), Action::Clock));
    browser = browser.step(Event::Clock { elapsed: 1_999_999_999 });
    browser = browser.step(Event::Waited { readable: true });
    browser = browser.step(Event::Resolved { err: 0, found: Some(resolved("a")) });
    browser = browser.step(Event::Released);
    browser = browser.step(Event::Started { err: 0 });
    browser = browser.step(Event::Clock { elapsed: 0 });
    browser = browser.step(Event::Waited { readable: true });
    browser = browser.step(Event::Addressed { err: 0, found: None });
    browser = browser.step(Event::Clock { elapsed: 1 });
    browser = browser.step(Event::Waited { readable: true });
    browser = browser.step(Event::Addressed { err: 0, found: Some(ip()) });
    browser = browser.step(Event::Released);
    assert!(matches!(browser.action(), Action::Send { .. }));
}

#[test]
fn what_is_found_with_an_error_counts() {
    let browser = browsed(&["a"]).step(Event::Started { err: 0 });
    let browser = browser.step(Event::Clock { elapsed: 0 });
    let browser = browser.step(Event::Waited { readable: true });
    let browser = browser.step(Event::Resolved { err: -1, found: Some(resolved("a")) });
    let browser = browser.step(Event::Released);
    let browser = browser.step(Event::Started { err: 0 });
    let browser = browser.step(Event::Clock { elapsed: 0 });
    let browser = browser.step(Event::Waited { readable: true });
    let browser = browser.step(Event::Addressed { err: -1, found: Some(ip()) });
    let browser = browser.step(Event::Released);
    match browser.action() {
        Action::Send { response: sent, .. } => assert_eq!(*sent, response("a")),
        _ => panic!(),
    }
}
