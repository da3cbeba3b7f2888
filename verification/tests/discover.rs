use mdns::browse::Action;
use mdns::discover::{
    all, all_with_loopback, interface, interface_with_loopback, make_raw_socket, Discovery,
    Listening, Opening, Platform, RawAction, RawEvent, RawSocketRequest, RawTask, StreamResult,
};
use mdns::macos::build_response;
use mdns::net::Ipv4Addr;
use mdns::response::{Class, Record, RecordKind, Response};
use std::time::Duration;

const SVC: &str = "_googlecast._tcp.local";
const INTERVAL: Duration = Duration::from_secs(15);

fn request(addr: Ipv4Addr, with_loopback: bool) -> RawSocketRequest {
    RawSocketRequest { service_name: SVC.to_string(), interface_addr: addr, with_loopback }
}

fn requested(opening: Opening<u8>) -> Option<RawSocketRequest> {
    match opening {
        Opening::Ready(_) => None,
        Opening::OpenSocket(pending) => Some(pending.request().clone()),
    }
}

fn opened(opening: Opening<u8>, outcome: Result<u8, &'static str>) -> Result<Discovery<u8>, &'static str> {
    match opening {
        Opening::Ready(discovery) => Ok(discovery),
        Opening::OpenSocket(pending) => pending.opened(outcome),
    }
}

fn raw(discovery: Discovery<u8>) -> (u8, RawTask) {
    match discovery.listen() {
        Listening::Raw { raw, task } => (raw, task),
        Listening::DnsSd { .. } => panic!(),
    }
}

fn named(name: &str) -> Response {
    let record = Record {
        name: name.to_string(),
        class: Class::IN,
        ttl: 10,
        kind: RecordKind::Unimplemented(vec![1, 2]),
    };
    Response { answers: vec![record], nameservers: vec![], additional: vec![] }
}

fn empty() -> Response {
    Response { answers: vec![], nameservers: vec![], additional: vec![] }
}

fn forwards(task: &RawTask, response: Result<Response, u32>) -> bool {
    match task.step(RawEvent::Received(StreamResult::Response(response.clone()))) {
        RawAction::Forward(forwarded) => {
            assert_eq!(forwarded, response);
            true
        }
        RawAction::Receive => false,
        _ => panic!(),
    }
}

#[test]
fn all_interfaces_have_address_zero() {
    let any = Ipv4Addr::new(0, 0, 0, 0);
    let other = Platform::Other;
    assert_eq!(requested(all(SVC, INTERVAL, other)), Some(request(any, false)));
    assert_eq!(requested(all_with_loopback(SVC, INTERVAL, other)), Some(request(any, true)));
}

#[test]
fn given_interface_is_joined() {
    let addr = Ipv4Addr::new(192, 168, 1, 2);
    let other = Platform::Other;
    assert_eq!(requested(interface(SVC, INTERVAL, addr, other)), Some(request(addr, false)));
    assert_eq!(
        requested(interface_with_loopback(SVC, INTERVAL, addr, other)),
        Some(request(addr, true))
    );
}

#[test]
fn macos_has_sockets_on_loopback_only() {
    let mac = Platform::MacOs;
    assert_eq!(make_raw_socket(SVC, Ipv4Addr::new(192, 168, 1, 2), true, mac), None);
    assert_eq!(make_raw_socket(SVC, Ipv4Addr::new(0, 0, 0, 0), false, mac), None);
    let loopback = Ipv4Addr::new(127, 0, 0, 1);
    assert_eq!(make_raw_socket(SVC, loopback, true, mac), Some(request(loopback, true)));
    for addr in [
        Ipv4Addr::new(127, 0, 0, 2),
        Ipv4Addr::new(127, 0, 1, 1),
        Ipv4Addr::new(127, 1, 0, 1),
        Ipv4Addr::new(128, 0, 0, 1),
    ] {
        assert_eq!(make_raw_socket(SVC, addr, false, mac), None);
        assert_eq!(requested(interface(SVC, INTERVAL, addr, mac)), None);
        assert_eq!(requested(interface_with_loopback(SVC, INTERVAL, addr, mac)), None);
        assert!(make_raw_socket(SVC, addr, false, Platform::Other).is_some());
    }
    assert_eq!(requested(all(SVC, INTERVAL, mac)), None);
    assert_eq!(requested(all_with_loopback(SVC, INTERVAL, mac)), None);
    assert_eq!(requested(interface(SVC, INTERVAL, loopback, mac)), Some(request(loopback, false)));
}

#[test]
fn failure_to_open_is_handed_on() {
    let error = opened(all(SVC, INTERVAL, Platform::Other), Err("in use"));
    assert_eq!(error.err(), Some("in use"));
}

#[test]
fn socket_is_listened_to() {
    let discovery = opened(all(SVC, INTERVAL, Platform::Other), Ok(7)).unwrap();
    let (socket, task) = raw(discovery);
    assert_eq!(socket, 7);
    assert_eq!(task.interval(), INTERVAL);
    assert!(forwards(&task, Ok(named(SVC))));
}

#[test]
fn without_a_socket_the_service_is_browsed() {
    let discovery = opened(all(SVC, INTERVAL, Platform::MacOs), Err("unused")).unwrap();
    match discovery.listen() {
        Listening::DnsSd { browser } => match browser.action() {
            Action::Browse { regtype, domain } => {
                assert_eq!(regtype, b"_googlecast._tcp\0");
                assert_eq!(domain, b"local.\0");
            }
            _ => panic!(),
        },
        Listening::Raw { .. } => panic!(),
    }
}

#[test]
fn responses_are_forwarded_by_answer() {
    for ignore in [true, false] {
        let discovery = opened(all(SVC, INTERVAL, Platform::Other), Ok(1)).unwrap();
        let (_, task) = raw(discovery.ignore_empty(ignore));
        assert!(forwards(&task, Ok(named(SVC))));
        assert!(!forwards(&task, Ok(named("_other._tcp.local"))));
        assert!(!forwards(&task, Ok(empty())));
        assert!(forwards(&task, Err(5)));

        let mut second = named("_other._tcp.local");
        second.answers.push(named(SVC).answers[0].clone());
        assert!(forwards(&task, Ok(second)));

        let mut elsewhere = empty();
        elsewhere.additional = named(SVC).answers;
        assert!(!elsewhere.is_empty());
        assert!(!forwards(&task, Ok(elsewhere)));
    }
}

#[test]
fn built_response_is_forwarded() {
    let (_, task) = raw(opened(all(SVC, INTERVAL, Platform::Other), Ok(1)).unwrap());
    let built = build_response(SVC, "tv._googlecast._tcp.local", Ipv4Addr::new(10, 0, 0, 1), 80, &[]);
    assert!(forwards(&task, Ok(built)));
}

#[test]
fn task_sends_queries_and_stops() {
    let (_, task) = raw(opened(all(SVC, INTERVAL, Platform::Other), Ok(1)).unwrap());
    let step = |event: RawEvent<u32>| task.step(event);
    assert!(matches!(
        step(RawEvent::Received(StreamResult::Interval)),
        RawAction::SendRequest
    ));
    assert!(matches!(step(RawEvent::Ended), RawAction::Stop));
    assert!(matches!(step(RawEvent::Forwarded { closed: false }), RawAction::Receive));
    assert!(matches!(step(RawEvent::Forwarded { closed: true }), RawAction::Stop));
}

#[test]
fn emptiness_is_over_all_sections() {
    assert!(empty().is_empty());
    assert!(!named(SVC).is_empty());
    let mut servers = empty();
    servers.nameservers = named(SVC).answers;
    assert!(!servers.is_empty());
}
