//! Discovery through the Bonjour DNS-SD API.
//!
//! On macOS the system daemon `mDNSResponder` is the sole receiver of multicast DNS on physical
//! interfaces, so a service is looked for by asking the daemon. A full lookup chains three
//! operations: a browse finds the instances of a service type, a resolve gives the full name,
//! the host, the port and the TXT record of one instance, and an address lookup gives the IPv4
//! address of the host.
//!
//! A [`Browser`] holds the state of such a discovery and decides what is done next. Whoever
//! drives it performs the [`Action`](crate::browse::Action) it asks for and tells it the outcome as an
//! [`Event`](crate::browse::Event).
use crate::browse::{Browser, BrowserView};
use crate::net::Ipv4Addr;
use crate::response::{
    Class, Record, RecordKind, RecordKindView, RecordView, Response, ResponseView,
};
use std::time::Duration;
use vstd::prelude::*;

verus! {

/// The time to live of the records of a response, in seconds.
pub const TTL: u32 = 120;

/// A record of class IN with the usual time to live.
pub open spec fn in_record(name: Seq<char>, kind: RecordKindView) -> RecordView {
    RecordView { name, class: Class::IN, ttl: TTL, kind }
}

/// The response that announces the instance `fullname` of the service `svc`.
pub open spec fn built_response(
    svc: Seq<char>,
    fullname: Seq<char>,
    ip: Ipv4Addr,
    port: u16,
    txt: Seq<Seq<char>>,
) -> ResponseView {
    ResponseView {
        answers: seq![in_record(svc, RecordKindView::PTR(fullname))],
        nameservers: seq![],
        additional: seq![
            in_record(fullname, RecordKindView::A(ip)),
            in_record(
                fullname,
                RecordKindView::SRV { priority: 0, weight: 0, port, target: fullname },
            ),
            in_record(fullname, RecordKindView::TXT(txt)),
        ],
    }
}

fn clone_strings(list: &[String]) -> (copy: Vec<String>)
    ensures
        copy@ == list@,
{
    let mut copy: Vec<String> = Vec::new();
    let mut i: usize = 0;
    while i < list.len()
        invariant
            i <= list@.len(),
            copy@ == list@.take(i as int),
        decreases list@.len() - i,
    {
        copy.push(list[i].clone());
        i += 1;
        assert(list@.take(i as int) =~= list@.take(i - 1).push(list@[i - 1]));
    }
    assert(list@.take(i as int) =~= list@);
    copy
}

/// Builds the response for a service instance:
///
/// - as answer a `PTR` record of the service name, which gives the instance name;
/// - as additional records an `A` record with the address, an `SRV` record with the port and a
///   `TXT` record with the strings of the instance.
pub fn build_response(
    svc: &str,
    fullname: &str,
    ip: Ipv4Addr,
    port: u16,
    txt: &[String],
) -> (response: Response)
    ensures
        response@ == built_response(svc@, fullname@, ip, port, txt.deep_view()),
        response.answers@.len() == 1 && response.nameservers@.len() == 0,
        response.additional@.len() == 3,
        response.answers@[0].name@ == svc@,
        response.answers@[0].kind matches RecordKind::PTR(host) && host@ == fullname@,
        response.additional@[0].kind == RecordKind::A(ip),
        response.additional@[1].kind matches RecordKind::SRV {
            priority,
            weight,
            port: served,
            target,
        } && priority == 0 && weight == 0 && served == port && target@ == fullname@,
        response.additional@[2].kind matches RecordKind::TXT(strings) && strings@ == txt@,
        response.answers@[0].class == Class::IN && response.answers@[0].ttl == 120,
        forall|i: int|
            #![trigger response.additional@[i]]
            0 <= i < 3 ==> response.additional@[i].name@ == fullname@
                && response.additional@[i].class == Class::IN && response.additional@[i].ttl == 120,
{
    let strings = clone_strings(txt);
    let ghost copied = strings.deep_view();
    let ptr = Record {
        name: svc.to_string(),
        class: Class::IN,
        ttl: TTL,
        kind: RecordKind::PTR(fullname.to_string()),
    };
    let a = Record {
        name: fullname.to_string(),
        class: Class::IN,
        ttl: TTL,
        kind: RecordKind::A(ip),
    };
    let srv = Record {
        name: fullname.to_string(),
        class: Class::IN,
        ttl: TTL,
        kind: RecordKind::SRV { priority: 0, weight: 0, port, target: fullname.to_string() },
    };
    let described = Record {
        name: fullname.to_string(),
        class: Class::IN,
        ttl: TTL,
        kind: RecordKind::TXT(strings),
    };
    let response = Response {
        answers: vec![ptr],
        nameservers: vec![],
        additional: vec![a, srv, described],
    };
    proof {
        let expected = built_response(svc@, fullname@, ip, port, txt.deep_view());
        assert(copied =~= txt.deep_view());
        assert(response@.answers =~= expected.answers);
        assert(response@.nameservers =~= expected.nameservers);
        assert(response@.additional =~= expected.additional);
    }
    response
}

/// A discovery of the service `svc`, e.g. `"_rpc._tcp.local"`, through DNS-SD.
///
/// The interval is ignored: `mDNSResponder` queries again by itself.
pub fn macos_listen(svc: String, _interval: Duration) -> (browser: Browser)
    ensures
        browser@ == BrowserView::start(svc@),
        browser@.wf(),
{
    Browser::new(svc)
}

/// The response for an instance holds what it was built from: one answer, a PTR record of the
/// service that gives the instance, and of the instance an A record with its address, an SRV
/// record with its port and the instance as target, and a TXT record with all its strings in
/// their order. Two responses are alike only if they were built from the same.
pub proof fn law_built_response_holds_what_it_was_built_from(
    svc: Seq<char>,
    fullname: Seq<char>,
    ip: Ipv4Addr,
    port: u16,
    txt: Seq<Seq<char>>,
)
    ensures
        ({
            let response = built_response(svc, fullname, ip, port, txt);
            let ptr = response.answers[0];
            let a = response.additional[0];
            let srv = response.additional[1];
            let described = response.additional[2];
            &&& response.answers.len() == 1 && response.nameservers.len() == 0
            &&& response.additional.len() == 3
            &&& ptr.name == svc && ptr.class == Class::IN && ptr.ttl == 120
            &&& ptr.kind == RecordKindView::PTR(fullname)
            &&& a.name == fullname && a.class == Class::IN && a.ttl == 120
            &&& a.kind == RecordKindView::A(ip)
            &&& srv.name == fullname && srv.class == Class::IN && srv.ttl == 120
            &&& srv.kind == (RecordKindView::SRV {
                priority: 0,
                weight: 0,
                port,
                target: fullname,
            })
            &&& described.name == fullname && described.class == Class::IN && described.ttl == 120
            &&& described.kind == RecordKindView::TXT(txt)
        }),
        forall|svc2: Seq<char>, fullname2: Seq<char>, ip2: Ipv4Addr, port2: u16, txt2: Seq<Seq<char>>|
            #[trigger] built_response(svc2, fullname2, ip2, port2, txt2) == built_response(
                svc,
                fullname,
                ip,
                port,
                txt,
            ) ==> svc2 == svc && fullname2 == fullname && ip2 == ip && port2 == port && txt2 == txt,
{
    let first = built_response(svc, fullname, ip, port, txt);
    assert forall|svc2: Seq<char>, fullname2: Seq<char>, ip2: Ipv4Addr, port2: u16, txt2: Seq<Seq<char>>|
        #[trigger] built_response(svc2, fullname2, ip2, port2, txt2) == first implies svc2 == svc
        && fullname2 == fullname && ip2 == ip && port2 == port && txt2 == txt by {
        let second = built_response(svc2, fullname2, ip2, port2, txt2);
        assert(second.answers[0] == first.answers[0]);
        assert(second.additional[0] == first.additional[0]);
        assert(second.additional[1] == first.additional[1]);
        assert(second.additional[2] == first.additional[2]);
    }
}

/// The response for an instance passes the filter for the service it was built for, whether
/// empty responses are ignored or not, and the instance name is its host name.
pub proof fn law_built_response_is_found<E>(
    svc: Seq<char>,
    fullname: Seq<char>,
    ip: Ipv4Addr,
    port: u16,
    txt: Seq<Seq<char>>,
    response: Response,
    task: crate::discover::RawTaskView,
)
    requires
        response@ == built_response(svc, fullname, ip, port, txt),
        task.service_name == svc,
    ensures
        crate::discover::should_send::<E>(Ok(response), task),
        response@.hostname() == Some(fullname),
{
    assert(response@.answers[0].name == svc);
    assert(response@.records()[0] == response@.answers[0]);
}

} // verus!
