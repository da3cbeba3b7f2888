//! Utilities for discovering devices on the LAN.
//!
//! A discovery is asked for with [`all`], [`interface`] or one of their variants. What these
//! return tells whether a multicast socket is to be opened; with the outcome of that, the
//! [`Discovery`] is there. [`Discovery::listen`] tells how its responses are received: from the
//! socket, with the decisions of a [`RawTask`], or through DNS-SD, with those of a
//! [`Browser`].
use crate::browse::{Browser, BrowserView};
use crate::macos::macos_listen;
use crate::net::Ipv4Addr;
use crate::response::Response;
use std::time::Duration;
use vstd::prelude::*;

verus! {

/// The kind of system a discovery runs on.
#[derive(Clone, Copy, Debug, PartialEq, Eq, Structural)]
pub enum Platform {
    /// macOS, where `mDNSResponder` owns multicast DNS on physical interfaces.
    MacOs,
    /// Any other system.
    Other,
}

/// A multicast DNS discovery request, with `R` for an open multicast socket.
///
/// This represents a single lookup of a single service name.
pub struct Discovery<R> {
    service_name: String,
    /// Whether empty responses are ignored.
    ignore_empty: bool,
    /// The interval at which queries are sent.
    send_request_interval: Duration,
    /// The socket. There is none if the responses come through DNS-SD.
    raw: Option<R>,
}

/// The view of a [`Discovery`].
pub struct DiscoveryView<R> {
    pub service_name: Seq<char>,
    pub ignore_empty: bool,
    pub send_request_interval: Duration,
    pub raw: Option<R>,
}

impl<R> View for Discovery<R> {
    type V = DiscoveryView<R>;

    closed spec fn view(&self) -> DiscoveryView<R> {
        DiscoveryView {
            service_name: self.service_name@,
            ignore_empty: self.ignore_empty,
            send_request_interval: self.send_request_interval,
            raw: self.raw,
        }
    }
}

/// A multicast socket that is to be opened.
#[derive(Clone, Debug, PartialEq, Eq)]
pub struct RawSocketRequest {
    /// The service that is queried over the socket.
    pub service_name: String,
    /// The interface on which the multicast group is joined.
    pub interface_addr: Ipv4Addr,
    /// Whether what is sent is looped back.
    pub with_loopback: bool,
}

/// The view of a [`RawSocketRequest`].
pub struct RawSocketRequestView {
    pub service_name: Seq<char>,
    pub interface_addr: Ipv4Addr,
    pub with_loopback: bool,
}

impl View for RawSocketRequest {
    type V = RawSocketRequestView;

    open spec fn view(&self) -> RawSocketRequestView {
        RawSocketRequestView {
            service_name: self.service_name@,
            interface_addr: self.interface_addr,
            with_loopback: self.with_loopback,
        }
    }
}

/// A discovery that waits for its socket.
pub struct PendingDiscovery {
    request: RawSocketRequest,
    send_request_interval: Duration,
}

/// The view of a [`PendingDiscovery`].
pub struct PendingDiscoveryView {
    pub request: RawSocketRequestView,
    pub send_request_interval: Duration,
}

impl View for PendingDiscovery {
    type V = PendingDiscoveryView;

    closed spec fn view(&self) -> PendingDiscoveryView {
        PendingDiscoveryView {
            request: self.request@,
            send_request_interval: self.send_request_interval,
        }
    }
}

/// A discovery that was asked for.
pub enum Opening<R> {
    /// It needs no socket.
    Ready(Discovery<R>),
    /// A socket is to be opened for it.
    OpenSocket(PendingDiscovery),
}

/// The view of an [`Opening`].
pub enum OpeningView<R> {
    Ready(DiscoveryView<R>),
    OpenSocket(PendingDiscoveryView),
}

impl<R> View for Opening<R> {
    type V = OpeningView<R>;

    open spec fn view(&self) -> OpeningView<R> {
        match self {
            Opening::Ready(discovery) => OpeningView::Ready(discovery@),
            Opening::OpenSocket(pending) => OpeningView::OpenSocket(pending@),
        }
    }
}

/// A discovery as it is made, with empty responses ignored.
pub open spec fn new_discovery<R>(
    service_name: Seq<char>,
    send_request_interval: Duration,
    raw: Option<R>,
) -> DiscoveryView<R> {
    DiscoveryView { service_name, ignore_empty: true, send_request_interval, raw }
}

/// The address of the loopback interface, `127.0.0.1`.
pub open spec fn loopback_interface() -> Ipv4Addr {
    Ipv4Addr { a: 127, b: 0, c: 0, d: 1 }
}

/// Whether responses come from a socket: everywhere but on macOS, and there on the loopback
/// interface, `127.0.0.1`.
pub open spec fn uses_raw_socket(interface_addr: Ipv4Addr, platform: Platform) -> bool {
    platform is MacOs ==> interface_addr == loopback_interface()
}

/// What is asked for by a discovery of `service_name` on the interface of the given address.
pub open spec fn opening<R>(
    service_name: Seq<char>,
    send_request_interval: Duration,
    interface_addr: Ipv4Addr,
    with_loopback: bool,
    platform: Platform,
) -> OpeningView<R> {
    if uses_raw_socket(interface_addr, platform) {
        OpeningView::OpenSocket(
            PendingDiscoveryView {
                request: RawSocketRequestView { service_name, interface_addr, with_loopback },
                send_request_interval,
            },
        )
    } else {
        OpeningView::Ready(new_discovery(service_name, send_request_interval, None))
    }
}

/// The address that stands for all interfaces.
pub open spec fn any_interface() -> Ipv4Addr {
    Ipv4Addr { a: 0, b: 0, c: 0, d: 0 }
}

/// Asks for all responses for a given service on all interfaces.
pub fn all<R>(service_name: &str, mdns_query_interval: Duration, platform: Platform) -> (opened:
    Opening<R>)
    ensures
        opened@ == opening::<R>(
            service_name@,
            mdns_query_interval,
            any_interface(),
            false,
            platform,
        ),
        match opened {
            Opening::OpenSocket(pending) => {
                &&& platform is Other
                &&& pending@.request.service_name == service_name@
                &&& pending@.request.interface_addr == (Ipv4Addr { a: 0, b: 0, c: 0, d: 0 })
                &&& pending@.request.with_loopback == false
                &&& pending@.send_request_interval == mdns_query_interval
            },
            Opening::Ready(discovery) => {
                &&& platform is MacOs
                &&& discovery@.service_name == service_name@
                &&& discovery@.ignore_empty
                &&& discovery@.send_request_interval == mdns_query_interval
                &&& discovery@.raw is None
            },
        },
{
    interface(service_name, mdns_query_interval, Ipv4Addr::new(0, 0, 0, 0), platform)
}

/// Asks for all responses for a given service on all interfaces, with loopback functionality.
pub fn all_with_loopback<R>(
    service_name: &str,
    mdns_query_interval: Duration,
    platform: Platform,
) -> (opened: Opening<R>)
    ensures
        opened@ == opening::<R>(
            service_name@,
            mdns_query_interval,
            any_interface(),
            true,
            platform,
        ),
        match opened {
            Opening::OpenSocket(pending) => {
                &&& platform is Other
                &&& pending@.request.service_name == service_name@
                &&& pending@.request.interface_addr == (Ipv4Addr { a: 0, b: 0, c: 0, d: 0 })
                &&& pending@.request.with_loopback == true
                &&& pending@.send_request_interval == mdns_query_interval
            },
            Opening::Ready(discovery) => {
                &&& platform is MacOs
                &&& discovery@.service_name == service_name@
                &&& discovery@.ignore_empty
                &&& discovery@.send_request_interval == mdns_query_interval
                &&& discovery@.raw is None
            },
        },
{
    interface_with_loopback(
        service_name,
        mdns_query_interval,
        Ipv4Addr::new(0, 0, 0, 0),
        platform,
    )
}

/// Asks for all responses for a given service on a given interface.
///
/// On macOS an address other than that of the loopback interface is not used: DNS-SD searches all
/// physical interfaces.
pub fn interface<R>(
    service_name: &str,
    mdns_query_interval: Duration,
    interface_addr: Ipv4Addr,
    platform: Platform,
) -> (opened: Opening<R>)
    ensures
        opened@ == opening::<R>(
            service_name@,
            mdns_query_interval,
            interface_addr,
            false,
            platform,
        ),
        match opened {
            Opening::OpenSocket(pending) => {
                &&& platform is Other || interface_addr == (Ipv4Addr { a: 127, b: 0, c: 0, d: 1 })
                &&& pending@.request.service_name == service_name@
                &&& pending@.request.interface_addr == interface_addr
                &&& pending@.request.with_loopback == false
                &&& pending@.send_request_interval == mdns_query_interval
            },
            Opening::Ready(discovery) => {
                &&& platform is MacOs && interface_addr != (Ipv4Addr { a: 127, b: 0, c: 0, d: 1 })
                &&& discovery@.service_name == service_name@
                &&& discovery@.ignore_empty
                &&& discovery@.send_request_interval == mdns_query_interval
                &&& discovery@.raw is None
            },
        },
{
    let request = make_raw_socket(service_name, interface_addr, false, platform);
    open(service_name, mdns_query_interval, request)
}

/// Asks for all responses for a given service on a given interface, with loopback
/// functionality.
///
/// On macOS an address other than that of the loopback interface is not used: DNS-SD searches all
/// physical interfaces.
pub fn interface_with_loopback<R>(
    service_name: &str,
    mdns_query_interval: Duration,
    interface_addr: Ipv4Addr,
    platform: Platform,
) -> (opened: Opening<R>)
    ensures
        opened@ == opening::<R>(
            service_name@,
            mdns_query_interval,
            interface_addr,
            true,
            platform,
        ),
        match opened {
            Opening::OpenSocket(pending) => {
                &&& platform is Other || interface_addr == (Ipv4Addr { a: 127, b: 0, c: 0, d: 1 })
                &&& pending@.request.service_name == service_name@
                &&& pending@.request.interface_addr == interface_addr
                &&& pending@.request.with_loopback == true
                &&& pending@.send_request_interval == mdns_query_interval
            },
            Opening::Ready(discovery) => {
                &&& platform is MacOs && interface_addr != (Ipv4Addr { a: 127, b: 0, c: 0, d: 1 })
                &&& discovery@.service_name == service_name@
                &&& discovery@.ignore_empty
                &&& discovery@.send_request_interval == mdns_query_interval
                &&& discovery@.raw is None
            },
        },
{
    let request = make_raw_socket(service_name, interface_addr, true, platform);
    open(service_name, mdns_query_interval, request)
}

fn open<R>(
    service_name: &str,
    send_request_interval: Duration,
    request: Option<RawSocketRequest>,
) -> (opened: Opening<R>)
    ensures
        opened@ == match request {
            Some(request) => OpeningView::<R>::OpenSocket(
                PendingDiscoveryView { request: request@, send_request_interval },
            ),
            None => OpeningView::<R>::Ready(
                new_discovery(service_name@, send_request_interval, None),
            ),
        },
{
    match request {
        Some(request) => Opening::OpenSocket(PendingDiscovery { request, send_request_interval }),
        None => Opening::Ready(
            Discovery {
                service_name: service_name.to_string(),
                ignore_empty: true,
                send_request_interval,
                raw: None,
            },
        ),
    }
}

/// The multicast socket to open for `interface_addr`.
///
/// On macOS there is one for the loopback interface, `127.0.0.1`, only: on physical interfaces
/// `mDNSResponder` receives all multicast DNS. For any other address there is none, and DNS-SD
/// is used instead.
pub fn make_raw_socket(
    service_name: &str,
    interface_addr: Ipv4Addr,
    with_loopback: bool,
    platform: Platform,
) -> (request: Option<RawSocketRequest>)
    ensures
        match request {
            Some(request) => uses_raw_socket(interface_addr, platform) && request@ == (
            RawSocketRequestView { service_name: service_name@, interface_addr, with_loopback }),
            None => !uses_raw_socket(interface_addr, platform),
        },
        request is None <==> platform is MacOs && !(interface_addr.a == 127 && interface_addr.b == 0
            && interface_addr.c == 0 && interface_addr.d == 1),
        request matches Some(r) ==> r.service_name@ == service_name@ && r.interface_addr
            == interface_addr && r.with_loopback == with_loopback,
{
    if platform == Platform::MacOs && interface_addr != Ipv4Addr::new(127, 0, 0, 1) {
        return None;
    }
    Some(RawSocketRequest { service_name: service_name.to_string(), interface_addr, with_loopback })
}

impl PendingDiscovery {
    /// The socket that is to be opened.
    pub fn request(&self) -> (request: &RawSocketRequest)
        ensures
            request@ == self@.request,
            request.service_name@ == self@.request.service_name,
            request.interface_addr == self@.request.interface_addr,
            request.with_loopback == self@.request.with_loopback,
    {
        &self.request
    }

    /// The discovery, given the outcome of opening its socket: an error is handed on.
    pub fn opened<R, E>(self, outcome: Result<R, E>) -> (discovery: Result<Discovery<R>, E>)
        ensures
            match outcome {
                Ok(raw) => discovery matches Ok(d) && d@ == new_discovery(
                    self@.request.service_name,
                    self@.send_request_interval,
                    Some(raw),
                ),
                Err(e) => discovery matches Err(err) && err == e,
            },
            discovery matches Ok(d) ==> {
                &&& d@.service_name == self@.request.service_name
                &&& d@.ignore_empty
                &&& d@.send_request_interval == self@.send_request_interval
                &&& d@.raw is Some
                &&& outcome == Ok::<R, E>(d@.raw->0)
            },
    {
        match outcome {
            Ok(raw) => Ok(
                Discovery {
                    service_name: self.request.service_name,
                    ignore_empty: true,
                    send_request_interval: self.send_request_interval,
                    raw: Some(raw),
                },
            ),
            Err(e) => Err(e),
        }
    }
}

/// How the responses of a discovery are received.
pub enum Listening<R> {
    /// From the socket.
    Raw { raw: R, task: RawTask },
    /// Through DNS-SD.
    DnsSd { browser: Browser },
}

/// The view of a [`Listening`].
pub enum ListeningView<R> {
    Raw { raw: R, task: RawTaskView },
    DnsSd { browser: BrowserView },
}

impl<R> View for Listening<R> {
    type V = ListeningView<R>;

    open spec fn view(&self) -> ListeningView<R> {
        match self {
            Listening::Raw { raw, task } => ListeningView::Raw { raw: *raw, task: task@ },
            Listening::DnsSd { browser } => ListeningView::DnsSd { browser: browser@ },
        }
    }
}

impl<R> DiscoveryView<R> {
    /// How the responses are received: from the socket if there is one.
    pub open spec fn listening(self) -> ListeningView<R> {
        match self.raw {
            Some(raw) => ListeningView::Raw {
                raw,
                task: RawTaskView {
                    service_name: self.service_name,
                    ignore_empty: self.ignore_empty,
                    send_request_interval: self.send_request_interval,
                },
            },
            None => ListeningView::DnsSd { browser: BrowserView::start(self.service_name) },
        }
    }
}

impl<R> Discovery<R> {
    /// Sets whether or not empty responses are ignored.
    ///
    /// Defaults to `true`.
    pub fn ignore_empty(self, ignore: bool) -> (discovery: Self)
        ensures
            discovery@ == (DiscoveryView { ignore_empty: ignore, ..self@ }),
            discovery@.ignore_empty == ignore,
            discovery@.service_name == self@.service_name,
            discovery@.send_request_interval == self@.send_request_interval,
            discovery@.raw == self@.raw,
    {
        let mut discovery = self;
        discovery.ignore_empty = ignore;
        discovery
    }

    /// How the responses of this discovery request are received.
    ///
    /// - From the socket, if there is one: queries are sent periodically, and every DNS response
    ///   that contains an answer record matching the service name is forwarded.
    ///
    /// - Through DNS-SD otherwise.
    pub fn listen(self) -> (listening: Listening<R>)
        ensures
            listening@ == self@.listening(),
            match listening {
                Listening::Raw { raw, task } => {
                    &&& self@.raw == Some(raw)
                    &&& task@.service_name == self@.service_name
                    &&& task@.ignore_empty == self@.ignore_empty
                    &&& task@.send_request_interval == self@.send_request_interval
                },
                Listening::DnsSd { browser } => {
                    &&& self@.raw is None
                    &&& browser@ == BrowserView::start(self@.service_name)
                },
            },
    {
        match self.raw {
            Some(raw) => Listening::Raw {
                raw,
                task: RawTask {
                    service_name: self.service_name,
                    ignore_empty: self.ignore_empty,
                    send_request_interval: self.send_request_interval,
                },
            },
            None => Listening::DnsSd {
                browser: macos_listen(self.service_name, self.send_request_interval),
            },
        }
    }
}

/// The decisions of a discovery that receives its responses from a socket.
pub struct RawTask {
    service_name: String,
    ignore_empty: bool,
    send_request_interval: Duration,
}

/// The view of a [`RawTask`].
pub struct RawTaskView {
    pub service_name: Seq<char>,
    pub ignore_empty: bool,
    pub send_request_interval: Duration,
}

impl View for RawTask {
    type V = RawTaskView;

    closed spec fn view(&self) -> RawTaskView {
        RawTaskView {
            service_name: self.service_name@,
            ignore_empty: self.ignore_empty,
            send_request_interval: self.send_request_interval,
        }
    }
}

/// What comes in while responses are received, with `E` for an error of the socket.
pub enum StreamResult<E> {
    /// It is time for a query.
    Interval,
    /// A response, or an error in its place.
    Response(Result<Response, E>),
}

/// What happens while responses are received.
pub enum RawEvent<E> {
    /// Something came in.
    Received(StreamResult<E>),
    /// Nothing will come in any more.
    Ended,
    /// A response was forwarded, or could not be because its receiver is gone.
    Forwarded { closed: bool },
}

/// What is to be done while responses are received.
pub enum RawAction<E> {
    /// Send a query, and receive on.
    SendRequest,
    /// Forward this response.
    Forward(Result<Response, E>),
    /// Receive on.
    Receive,
    /// Nothing: all is over.
    Stop,
}

/// Whether a response is forwarded: all errors are, and a response if it has an answer for the
/// service and is not empty, or empty responses are not ignored.
pub open spec fn should_send<E>(response: Result<Response, E>, task: RawTaskView) -> bool {
    match response {
        Ok(response) => {
            &&& response@.records().len() > 0 || !task.ignore_empty
            &&& response@.answers_for(task.service_name)
        },
        Err(_) => true,
    }
}

impl RawTaskView {
    /// What is to be done after `event`.
    pub open spec fn next<E>(self, event: RawEvent<E>) -> RawAction<E> {
        match event {
            RawEvent::Received(StreamResult::Interval) => RawAction::SendRequest,
            RawEvent::Received(StreamResult::Response(response)) => if should_send(response, self) {
                RawAction::Forward(response)
            } else {
                RawAction::Receive
            },
            RawEvent::Ended => RawAction::Stop,
            RawEvent::Forwarded { closed } => if closed {
                RawAction::Stop
            } else {
                RawAction::Receive
            },
        }
    }
}

impl RawTask {
    /// The interval at which queries are sent.
    pub fn interval(&self) -> (interval: Duration)
        ensures
            interval == self@.send_request_interval,
    {
        self.send_request_interval
    }

    /// What is to be done after `event`: a query is sent at each interval, and the responses
    /// that match the service name are forwarded until their receiver is gone.
    pub fn step<E>(&self, event: RawEvent<E>) -> (action: RawAction<E>)
        ensures
            action == self@.next(event),
            match event {
                RawEvent::Received(StreamResult::Interval) => action is SendRequest,
                RawEvent::Received(StreamResult::Response(Err(e))) => action == RawAction::Forward(
                    Err::<Response, E>(e),
                ),
                RawEvent::Received(StreamResult::Response(Ok(response))) => if exists|i: int|
                    0 <= i < response.answers@.len() && (#[trigger] response.answers@[i]).name@
                        == self@.service_name {
                    action == RawAction::Forward(Ok::<Response, E>(response))
                } else {
                    action is Receive
                },
                RawEvent::Ended => action is Stop,
                RawEvent::Forwarded { closed } => if closed {
                    action is Stop
                } else {
                    action is Receive
                },
            },
    {
        proof {
            law_raw_task_forwards_by_name(self@, event);
        }
        match event {
            RawEvent::Received(StreamResult::Interval) => RawAction::SendRequest,
            RawEvent::Received(StreamResult::Response(response)) => {
                let should_send = match &response {
                    Ok(r) => (!r.is_empty() || !self.ignore_empty) && r.answers_for(
                        &self.service_name,
                    ),
                    Err(_) => true,
                };
                if should_send {
                    RawAction::Forward(response)
                } else {
                    RawAction::Receive
                }
            },
            RawEvent::Ended => RawAction::Stop,
            RawEvent::Forwarded { closed } => if closed {
                RawAction::Stop
            } else {
                RawAction::Receive
            },
        }
    }
}

/// Whether empty responses are ignored or not, a response is forwarded exactly if it has an
/// answer for the service; an error is always forwarded.
pub proof fn law_forwarding_is_by_answer<E>(task: RawTaskView, response: Result<Response, E>)
    ensures
        task.next(RawEvent::Received(StreamResult::Response(response))) == (if response is Err
            || response->Ok_0@.answers_for(task.service_name) {
            RawAction::Forward(response)
        } else {
            RawAction::Receive
        }),
{
}

/// A response is forwarded, as it came, exactly if the name of one of its answers is that of the
/// service, and an error always is. A query is sent at each interval, and all ends with what
/// comes in or with the receiver.
pub proof fn law_raw_task_forwards_by_name<E>(task: RawTaskView, event: RawEvent<E>)
    ensures
        match event {
            RawEvent::Received(StreamResult::Interval) => task.next(event) is SendRequest,
            RawEvent::Received(StreamResult::Response(Err(e))) => task.next(event)
                == RawAction::Forward(Err::<Response, E>(e)),
            RawEvent::Received(StreamResult::Response(Ok(response))) => if exists|i: int|
                0 <= i < response.answers@.len() && (#[trigger] response.answers@[i]).name@
                    == task.service_name {
                task.next(event) == RawAction::Forward(Ok::<Response, E>(response))
            } else {
                task.next(event) is Receive
            },
            RawEvent::Ended => task.next(event) is Stop,
            RawEvent::Forwarded { closed } => if closed {
                task.next(event) is Stop
            } else {
                task.next(event) is Receive
            },
        },
{
    if let RawEvent::Received(StreamResult::Response(Ok(response))) = event {
        let name = task.service_name;
        if exists|i: int|
            0 <= i < response.answers@.len() && (#[trigger] response.answers@[i]).name@ == name {
            let k = choose|i: int|
                0 <= i < response.answers@.len() && (#[trigger] response.answers@[i]).name@ == name;
            assert(response@.answers[k].name == name);
        } else {
            assert forall|i: int| 0 <= i < response@.answers.len() implies (
            #[trigger] response@.answers[i]).name != name by {
                assert(response@.answers[i] == response.answers@[i]@);
            }
        }
    }
}

/// What is asked for is what was given: a socket for the service, on the interface, with or
/// without loopback, or else a discovery of the service without one. It ignores empty responses
/// and keeps the interval, and listens as it was asked for.
pub proof fn law_opening_holds_what_was_asked_for<R>(
    service_name: Seq<char>,
    interval: Duration,
    interface_addr: Ipv4Addr,
    with_loopback: bool,
    platform: Platform,
    raw: Option<R>,
    ignore: bool,
)
    ensures
        match opening::<R>(service_name, interval, interface_addr, with_loopback, platform) {
            OpeningView::OpenSocket(pending) => {
                &&& pending.request.service_name == service_name
                &&& pending.request.interface_addr == interface_addr
                &&& pending.request.with_loopback == with_loopback
                &&& pending.send_request_interval == interval
            },
            OpeningView::Ready(discovery) => {
                &&& platform is MacOs && interface_addr != (Ipv4Addr { a: 127, b: 0, c: 0, d: 1 })
                &&& discovery.service_name == service_name
                &&& discovery.ignore_empty
                &&& discovery.send_request_interval == interval
                &&& discovery.raw is None
            },
        },
        new_discovery(service_name, interval, raw).service_name == service_name,
        new_discovery(service_name, interval, raw).ignore_empty,
        new_discovery(service_name, interval, raw).send_request_interval == interval,
        new_discovery(service_name, interval, raw).raw == raw,
        ({
            let discovery = DiscoveryView::<R> {
                service_name,
                ignore_empty: ignore,
                send_request_interval: interval,
                raw,
            };
            match discovery.listening() {
                ListeningView::Raw { raw: socket, task } => {
                    &&& raw == Some(socket)
                    &&& task.service_name == service_name
                    &&& task.ignore_empty == ignore
                    &&& task.send_request_interval == interval
                },
                ListeningView::DnsSd { browser } => raw is None && browser == BrowserView::start(
                    service_name,
                ),
            }
        }),
{
}

/// Off macOS a discovery always has a socket. On macOS it has one exactly if it was asked for on
/// the loopback interface, `127.0.0.1`, so never if it was asked for on all interfaces. With a
/// socket it receives from that, without one through DNS-SD.
pub proof fn law_backend_is_by_platform<R>(
    service_name: Seq<char>,
    interval: Duration,
    interface_addr: Ipv4Addr,
    with_loopback: bool,
    platform: Platform,
    raw: R,
)
    ensures
        platform is Other ==> opening::<R>(
            service_name,
            interval,
            interface_addr,
            with_loopback,
            platform,
        ) is OpenSocket,
        platform is MacOs ==> (opening::<R>(
            service_name,
            interval,
            interface_addr,
            with_loopback,
            platform,
        ) is OpenSocket <==> interface_addr == (Ipv4Addr { a: 127, b: 0, c: 0, d: 1 })),
        platform is MacOs ==> opening::<R>(
            service_name,
            interval,
            Ipv4Addr { a: 0, b: 0, c: 0, d: 0 },
            with_loopback,
            platform,
        ) is Ready,
        new_discovery(service_name, interval, Some(raw)).listening() is Raw,
        new_discovery::<R>(service_name, interval, None).listening() is DnsSd,
{
}

} // verus!
