//! The course of a DNS-SD discovery, from the browse to the responses.
use crate::dnssd::{Instance, InstanceView, Resolved, ResolvedView};
use crate::macos::build_response;
use crate::net::Ipv4Addr;
use crate::poll::{poll_until, Poll, PollEvent, NO_ERR, SLICE};
use crate::response::{Response, ResponseView};
use crate::text::{cstring, nodot, split_svc};
use vstd::prelude::*;

verus! {

/// How long a resolve or an address lookup is waited for, in nanoseconds.
pub const LOOKUP_TIMEOUT: u128 = 2_000_000_000;

/// The texts that a resolve is started with, as C strings.
#[derive(Clone, Debug, PartialEq, Eq)]
pub struct ResolveRequest {
    pub name: Vec<u8>,
    pub regtype: Vec<u8>,
    pub domain: Vec<u8>,
}

/// The view of a [`ResolveRequest`].
#[verifier::ext_equal]
pub struct ResolveRequestView {
    pub name: Seq<u8>,
    pub regtype: Seq<u8>,
    pub domain: Seq<u8>,
}

impl View for ResolveRequest {
    type V = ResolveRequestView;

    open spec fn view(&self) -> ResolveRequestView {
        ResolveRequestView { name: self.name@, regtype: self.regtype@, domain: self.domain@ }
    }
}

/// What a resolve of `instance` is started with; none can be if one of its texts holds a nul.
pub open spec fn resolve_request(instance: InstanceView) -> Option<ResolveRequestView> {
    match (
        crate::text::c_bytes(instance.name),
        crate::text::c_bytes(instance.regtype),
        crate::text::c_bytes(instance.domain),
    ) {
        (Some(name), Some(regtype), Some(domain)) => Some(
            ResolveRequestView { name, regtype, domain },
        ),
        _ => None,
    }
}

/// What to start a resolve of an instance with, or `None` if one of the texts holds a nul: such
/// an instance is not resolved.
pub fn do_resolve(name: &str, regtype: &str, domain: &str) -> (request: Option<ResolveRequest>)
    ensures
        ({
            let expected = resolve_request(
                InstanceView { name: name@, regtype: regtype@, domain: domain@ },
            );
            match request {
                Some(r) => expected == Some(r@),
                None => expected is None,
            }
        }),
        request is None <==> name@.contains('\0') || regtype@.contains('\0') || domain@.contains(
            '\0',
        ),
        request matches Some(r) ==> {
            &&& r.name@ == vstd::utf8::encode_utf8(name@).push(0u8)
            &&& r.regtype@ == vstd::utf8::encode_utf8(regtype@).push(0u8)
            &&& r.domain@ == vstd::utf8::encode_utf8(domain@).push(0u8)
        },
{
    let name = cstring(name)?;
    let regtype = cstring(regtype)?;
    let domain = cstring(domain)?;
    Some(ResolveRequest { name, regtype, domain })
}

/// The host name to start an address lookup with, as a C string, or `None` if it holds a nul:
/// such a host is not looked up.
pub fn do_addr(host: &str) -> (request: Option<Vec<u8>>)
    ensures
        match request {
            Some(bytes) => crate::text::c_bytes(host@) == Some(bytes@),
            None => crate::text::c_bytes(host@) is None,
        },
        request is None <==> host@.contains('\0'),
        request matches Some(bytes) ==> bytes@ == vstd::utf8::encode_utf8(host@).push(0u8),
{
    cstring(host)
}

/// The operations of which a reference is held while they run.
#[derive(Clone, Copy, Debug, PartialEq, Eq, Structural)]
pub enum Operation {
    /// The browse.
    Browse,
    /// The resolve of an instance.
    Resolve,
    /// The address lookup of a host.
    AddrInfo,
}

/// What is to be done next in a discovery.
pub enum Action<'a> {
    /// Start the browse with these C strings.
    Browse { regtype: &'a Vec<u8>, domain: &'a Vec<u8> },
    /// Start a resolve.
    Resolve { request: &'a ResolveRequest },
    /// Start an address lookup of the host that this C string names.
    GetAddrInfo { host: &'a Vec<u8> },
    /// Tell how long ago the operation that was started last was started.
    Clock,
    /// Wait until the operation is readable, for `nanos` nanoseconds at most.
    Wait { operation: Operation, nanos: u128 },
    /// Process a result of the operation.
    Process { operation: Operation },
    /// Release the reference of the operation.
    Release { operation: Operation },
    /// Send the response for the instance `name`.
    Send { name: &'a String, response: &'a Response },
    /// Nothing: the discovery is over.
    Stop,
}

/// The view of an [`Action`].
pub enum ActionView {
    Browse { regtype: Seq<u8>, domain: Seq<u8> },
    Resolve { request: ResolveRequestView },
    GetAddrInfo { host: Seq<u8> },
    Clock,
    Wait { operation: Operation, nanos: u128 },
    Process { operation: Operation },
    Release { operation: Operation },
    Send { name: Seq<char>, response: ResponseView },
    Stop,
}

impl<'a> View for Action<'a> {
    type V = ActionView;

    open spec fn view(&self) -> ActionView {
        match self {
            Action::Browse { regtype, domain } => ActionView::Browse {
                regtype: regtype@,
                domain: domain@,
            },
            Action::Resolve { request } => ActionView::Resolve { request: request@ },
            Action::GetAddrInfo { host } => ActionView::GetAddrInfo { host: host@ },
            Action::Clock => ActionView::Clock,
            Action::Wait { operation, nanos } => ActionView::Wait {
                operation: *operation,
                nanos: *nanos,
            },
            Action::Process { operation } => ActionView::Process { operation: *operation },
            Action::Release { operation } => ActionView::Release { operation: *operation },
            Action::Send { name, response } => ActionView::Send {
                name: name@,
                response: response@,
            },
            Action::Stop => ActionView::Stop,
        }
    }
}

/// The outcome of an action.
#[allow(inconsistent_fields)]
pub enum Event {
    /// An operation was started, with the given error code.
    Started { err: i32 },
    /// `elapsed` nanoseconds have passed since the operation was started.
    Clock { elapsed: u128 },
    /// A wait is over, and the operation is `readable` or not.
    Waited { readable: bool },
    /// A result of the browse was processed, with the given error code, and `found` was added.
    Browsed { err: i32, found: Vec<Instance> },
    /// A result of the resolve was processed, with the given error code.
    Resolved { err: i32, found: Option<Resolved> },
    /// A result of the address lookup was processed, with the given error code.
    Addressed { err: i32, found: Option<Ipv4Addr> },
    /// The reference was released.
    Released,
    /// The response was sent, or could not be sent because its receiver is gone.
    Sent { closed: bool },
}

/// The view of an [`Event`].
#[allow(inconsistent_fields)]
pub enum EventView {
    Started { err: i32 },
    Clock { elapsed: u128 },
    Waited { readable: bool },
    Browsed { err: i32, found: Seq<InstanceView> },
    Resolved { err: i32, found: Option<ResolvedView> },
    Addressed { err: i32, found: Option<Ipv4Addr> },
    Released,
    Sent { closed: bool },
}

impl View for Event {
    type V = EventView;

    open spec fn view(&self) -> EventView {
        match self {
            Event::Started { err } => EventView::Started { err: *err },
            Event::Clock { elapsed } => EventView::Clock { elapsed: *elapsed },
            Event::Waited { readable } => EventView::Waited { readable: *readable },
            Event::Browsed { err, found } => EventView::Browsed {
                err: *err,
                found: crate::dnssd::instances(found@),
            },
            Event::Resolved { err, found } => EventView::Resolved {
                err: *err,
                found: crate::dnssd::resolved_slot(*found),
            },
            Event::Addressed { err, found } => EventView::Addressed { err: *err, found: *found },
            Event::Released => EventView::Released,
            Event::Sent { closed } => EventView::Sent { closed: *closed },
        }
    }
}

/// How far a discovery has come.
#[allow(inconsistent_fields)]
enum Phase {
    /// The browse is to be started.
    Start { regtype: Vec<u8>, domain: Vec<u8> },
    /// The browse is waited for.
    Polling,
    /// A result of the browse is to be processed.
    Processing,
    /// A resolve of the instance `name` is to be started.
    ResolveStart { name: String, request: ResolveRequest },
    /// The resolve is waited for.
    ResolvePoll { name: String, poll: Poll },
    /// The resolve is over.
    ResolveClose { name: String, found: Option<Resolved> },
    /// The address lookup is to be started.
    AddrStart { name: String, resolved: Resolved, host: Vec<u8> },
    /// The address lookup is waited for.
    AddrPoll { name: String, resolved: Resolved, poll: Poll },
    /// The address lookup is over.
    AddrClose { name: String, resolved: Resolved, found: Option<Ipv4Addr> },
    /// The response is to be sent.
    Sending { name: String, response: Response },
    /// The browse is over.
    Closing,
    /// All is over.
    Stopped,
}

/// The view of how far a discovery has come.
#[allow(inconsistent_fields)]
pub enum PhaseView {
    Start { regtype: Seq<u8>, domain: Seq<u8> },
    Polling,
    Processing,
    ResolveStart { name: Seq<char>, request: ResolveRequestView },
    ResolvePoll { name: Seq<char>, poll: Poll },
    ResolveClose { name: Seq<char>, found: Option<ResolvedView> },
    AddrStart { name: Seq<char>, resolved: ResolvedView, host: Seq<u8> },
    AddrPoll { name: Seq<char>, resolved: ResolvedView, poll: Poll },
    AddrClose { name: Seq<char>, resolved: ResolvedView, found: Option<Ipv4Addr> },
    Sending { name: Seq<char>, response: ResponseView },
    Closing,
    Stopped,
}

impl Phase {
    spec fn view(&self) -> PhaseView {
        match self {
            Phase::Start { regtype, domain } => PhaseView::Start {
                regtype: regtype@,
                domain: domain@,
            },
            Phase::Polling => PhaseView::Polling,
            Phase::Processing => PhaseView::Processing,
            Phase::ResolveStart { name, request } => PhaseView::ResolveStart {
                name: name@,
                request: request@,
            },
            Phase::ResolvePoll { name, poll } => PhaseView::ResolvePoll { name: name@, poll: *poll },
            Phase::ResolveClose { name, found } => PhaseView::ResolveClose {
                name: name@,
                found: crate::dnssd::resolved_slot(*found),
            },
            Phase::AddrStart { name, resolved, host } => PhaseView::AddrStart {
                name: name@,
                resolved: resolved@,
                host: host@,
            },
            Phase::AddrPoll { name, resolved, poll } => PhaseView::AddrPoll {
                name: name@,
                resolved: resolved@,
                poll: *poll,
            },
            Phase::AddrClose { name, resolved, found } => PhaseView::AddrClose {
                name: name@,
                resolved: resolved@,
                found: *found,
            },
            Phase::Sending { name, response } => PhaseView::Sending {
                name: name@,
                response: response@,
            },
            Phase::Closing => PhaseView::Closing,
            Phase::Stopped => PhaseView::Stopped,
        }
    }
}

/// A discovery of the instances of one service.
pub struct Browser {
    svc: String,
    /// The names of the instances that have been taken up, none of them twice.
    seen: Vec<String>,
    /// The instances that were found and not taken up yet.
    pending: Vec<Instance>,
    phase: Phase,
}

/// The view of a [`Browser`].
#[verifier::ext_equal]
pub struct BrowserView {
    pub svc: Seq<char>,
    pub seen: Seq<Seq<char>>,
    pub pending: Seq<InstanceView>,
    pub phase: PhaseView,
}

impl View for Browser {
    type V = BrowserView;

    closed spec fn view(&self) -> BrowserView {
        BrowserView {
            svc: self.svc@,
            seen: self.seen.deep_view(),
            pending: crate::dnssd::instances(self.pending@),
            phase: self.phase.view(),
        }
    }
}

impl PhaseView {
    /// The instance that is being looked up.
    pub open spec fn instance(self) -> Option<Seq<char>> {
        match self {
            PhaseView::ResolveStart { name, .. } => Some(name),
            PhaseView::ResolvePoll { name, .. } => Some(name),
            PhaseView::ResolveClose { name, .. } => Some(name),
            PhaseView::AddrStart { name, .. } => Some(name),
            PhaseView::AddrPoll { name, .. } => Some(name),
            PhaseView::AddrClose { name, .. } => Some(name),
            PhaseView::Sending { name, .. } => Some(name),
            _ => None,
        }
    }

    /// Whether a reference of `operation` is held.
    pub open spec fn holds(self, operation: Operation) -> bool {
        match operation {
            Operation::Browse => !(self is Start || self is Stopped),
            Operation::Resolve => self is ResolvePoll || self is ResolveClose,
            Operation::AddrInfo => self is AddrPoll || self is AddrClose,
        }
    }

    /// What is to be done.
    pub open spec fn action(self) -> ActionView {
        match self {
            PhaseView::Start { regtype, domain } => ActionView::Browse { regtype, domain },
            PhaseView::Polling => ActionView::Wait { operation: Operation::Browse, nanos: SLICE },
            PhaseView::Processing => ActionView::Process { operation: Operation::Browse },
            PhaseView::ResolveStart { request, .. } => ActionView::Resolve { request },
            PhaseView::ResolvePoll { poll, .. } => poll_action(Operation::Resolve, poll),
            PhaseView::ResolveClose { .. } => ActionView::Release { operation: Operation::Resolve },
            PhaseView::AddrStart { host, .. } => ActionView::GetAddrInfo { host },
            PhaseView::AddrPoll { poll, .. } => poll_action(Operation::AddrInfo, poll),
            PhaseView::AddrClose { .. } => ActionView::Release { operation: Operation::AddrInfo },
            PhaseView::Sending { name, response } => ActionView::Send { name, response },
            PhaseView::Closing => ActionView::Release { operation: Operation::Browse },
            PhaseView::Stopped => ActionView::Stop,
        }
    }
}

/// What is to be done for a poll of `operation`.
pub open spec fn poll_action(operation: Operation, poll: Poll) -> ActionView {
    match poll {
        Poll::Clock => ActionView::Clock,
        Poll::Wait { nanos } => ActionView::Wait { operation, nanos },
        Poll::Process => ActionView::Process { operation },
        Poll::Finished => ActionView::Release { operation },
    }
}

/// The phase of a resolve whose poll wants `poll`, with what has been found.
pub open spec fn resolving(name: Seq<char>, poll: Poll, found: Option<ResolvedView>) -> PhaseView {
    if poll is Finished {
        PhaseView::ResolveClose { name, found }
    } else {
        PhaseView::ResolvePoll { name, poll }
    }
}

/// The phase of an address lookup whose poll wants `poll`, with what has been found.
pub open spec fn addressing(
    name: Seq<char>,
    resolved: ResolvedView,
    poll: Poll,
    found: Option<Ipv4Addr>,
) -> PhaseView {
    if poll is Finished {
        PhaseView::AddrClose { name, resolved, found }
    } else {
        PhaseView::AddrPoll { name, resolved, poll }
    }
}

/// The response for a resolved instance of the service `svc` at the address `ip`.
pub open spec fn response_for(svc: Seq<char>, resolved: ResolvedView, ip: Ipv4Addr) -> ResponseView {
    crate::macos::built_response(
        svc,
        crate::text::without_dot(resolved.fullname),
        ip,
        resolved.port,
        resolved.txt,
    )
}

impl BrowserView {
    /// A discovery of `svc` that has not begun. It is over at once if no browse can be started
    /// because the service name holds a nul.
    pub open spec fn start(svc: Seq<char>) -> BrowserView {
        let (regtype, domain) = crate::text::service_parts(svc);
        BrowserView {
            svc,
            seen: seq![],
            pending: seq![],
            phase: match (crate::text::c_bytes(regtype), crate::text::c_bytes(domain)) {
                (Some(regtype), Some(domain)) => PhaseView::Start { regtype, domain },
                _ => PhaseView::Stopped,
            },
        }
    }

    /// The discovery, come to `phase`.
    pub open spec fn at(self, phase: PhaseView) -> BrowserView {
        BrowserView { phase, ..self }
    }

    /// The discovery, come to where the next of the pending instances is taken up: the first
    /// that was not seen before and can be resolved. All instances before it count as seen.
    /// With none left, the browse is waited for again.
    pub open spec fn resume(self) -> BrowserView
        decreases self.pending.len(),
    {
        if self.pending.len() == 0 {
            self.at(PhaseView::Polling)
        } else {
            let instance = self.pending[0];
            let rest = BrowserView { pending: self.pending.drop_first(), ..self };
            if self.seen.contains(instance.name) {
                rest.resume()
            } else {
                let taken = BrowserView { seen: self.seen.push(instance.name), ..rest };
                match resolve_request(instance) {
                    Some(request) => taken.at(
                        PhaseView::ResolveStart { name: instance.name, request },
                    ),
                    None => taken.resume(),
                }
            }
        }
    }

    /// The discovery after `event`. An event that is not the outcome of the action that was to
    /// be done changes nothing.
    pub open spec fn next(self, event: EventView) -> BrowserView {
        match (self.phase, event) {
            (PhaseView::Start { .. }, EventView::Started { err }) => if err != NO_ERR {
                self.at(PhaseView::Stopped)
            } else {
                self.at(PhaseView::Polling)
            },
            (PhaseView::Polling, EventView::Waited { readable }) => if readable {
                self.at(PhaseView::Processing)
            } else {
                self.resume()
            },
            (PhaseView::Processing, EventView::Browsed { err, found }) => if err != NO_ERR {
                self.at(PhaseView::Closing)
            } else {
                BrowserView { pending: self.pending + found, ..self }.resume()
            },
            (PhaseView::ResolveStart { name, .. }, EventView::Started { err }) => if err
                != NO_ERR {
                self.resume()
            } else {
                self.at(
                    resolving(
                        name,
                        crate::poll::poll_next(LOOKUP_TIMEOUT, false, PollEvent::Begin),
                        None,
                    ),
                )
            },
            (
                PhaseView::ResolvePoll { name, poll: Poll::Clock },
                EventView::Clock { elapsed },
            ) => self.at(
                resolving(
                    name,
                    crate::poll::poll_next(LOOKUP_TIMEOUT, false, PollEvent::Clock { elapsed }),
                    None,
                ),
            ),
            (
                PhaseView::ResolvePoll { name, poll: Poll::Wait { .. } },
                EventView::Waited { readable },
            ) => self.at(
                resolving(
                    name,
                    crate::poll::poll_next(LOOKUP_TIMEOUT, false, PollEvent::Waited { readable }),
                    None,
                ),
            ),
            (
                PhaseView::ResolvePoll { name, poll: Poll::Process },
                EventView::Resolved { err, found },
            ) => self.at(
                resolving(
                    name,
                    crate::poll::poll_next(
                        LOOKUP_TIMEOUT,
                        found is Some,
                        PollEvent::Processed { err },
                    ),
                    found,
                ),
            ),
            (PhaseView::ResolveClose { name, found }, EventView::Released) => match found {
                Some(resolved) => match crate::text::c_bytes(resolved.host) {
                    Some(host) => self.at(PhaseView::AddrStart { name, resolved, host }),
                    None => self.resume(),
                },
                None => self.resume(),
            },
            (PhaseView::AddrStart { name, resolved, .. }, EventView::Started { err }) => if err
                != NO_ERR {
                self.resume()
            } else {
                self.at(
                    addressing(
                        name,
                        resolved,
                        crate::poll::poll_next(LOOKUP_TIMEOUT, false, PollEvent::Begin),
                        None,
                    ),
                )
            },
            (
                PhaseView::AddrPoll { name, resolved, poll: Poll::Clock },
                EventView::Clock { elapsed },
            ) => self.at(
                addressing(
                    name,
                    resolved,
                    crate::poll::poll_next(LOOKUP_TIMEOUT, false, PollEvent::Clock { elapsed }),
                    None,
                ),
            ),
            (
                PhaseView::AddrPoll { name, resolved, poll: Poll::Wait { .. } },
                EventView::Waited { readable },
            ) => self.at(
                addressing(
                    name,
                    resolved,
                    crate::poll::poll_next(LOOKUP_TIMEOUT, false, PollEvent::Waited { readable }),
                    None,
                ),
            ),
            (
                PhaseView::AddrPoll { name, resolved, poll: Poll::Process },
                EventView::Addressed { err, found },
            ) => self.at(
                addressing(
                    name,
                    resolved,
                    crate::poll::poll_next(
                        LOOKUP_TIMEOUT,
                        found is Some,
                        PollEvent::Processed { err },
                    ),
                    found,
                ),
            ),
            (PhaseView::AddrClose { name, resolved, found }, EventView::Released) => match found {
                Some(ip) => self.at(
                    PhaseView::Sending { name, response: response_for(self.svc, resolved, ip) },
                ),
                None => self.resume(),
            },
            (PhaseView::Sending { .. }, EventView::Sent { closed }) => if closed {
                self.at(PhaseView::Closing)
            } else {
                self.resume()
            },
            (PhaseView::Closing, EventView::Released) => self.at(PhaseView::Stopped),
            _ => self,
        }
    }

    /// What holds of every discovery: no instance was taken up twice, the one that is being
    /// looked up is the one taken up last, no instance is left pending while the browse is
    /// waited for, and a response that is sent answers for the service.
    pub open spec fn wf(self) -> bool {
        &&& self.seen.no_duplicates()
        &&& self.phase.instance() matches Some(name) ==> self.seen.len() > 0 && self.seen.last()
            == name
        &&& self.phase is Start ==> self.seen.len() == 0
        &&& self.phase is Start || self.phase is Polling || self.phase is Processing
            ==> self.pending.len() == 0
        &&& self.phase matches PhaseView::ResolvePoll { poll, .. } ==> !(poll is Finished)
        &&& self.phase matches PhaseView::AddrPoll { poll, .. } ==> !(poll is Finished)
        &&& self.phase matches PhaseView::Sending { response, .. } ==> response.answers_for(
            self.svc,
        )
    }
}

/// How a discovery resumes does not depend on its phase.
proof fn lemma_resume_phase(b: BrowserView, phase: PhaseView)
    ensures
        b.at(phase).resume() == b.resume(),
    decreases b.pending.len(),
{
    if b.pending.len() > 0 {
        let rest = BrowserView { pending: b.pending.drop_first(), ..b };
        let taken = BrowserView { seen: b.seen.push(b.pending[0].name), ..rest };
        lemma_resume_phase(rest, phase);
        lemma_resume_phase(taken, phase);
    }
}

/// A discovery that resumes stays well-formed. It adds to what was seen, and comes to wait for
/// the browse or to resolve an instance that was not seen before.
proof fn lemma_resume(b: BrowserView)
    requires
        b.seen.no_duplicates(),
    ensures
        b.resume().wf(),
        b.resume().svc == b.svc,
        b.seen.is_prefix_of(b.resume().seen),
        b.resume().phase is Polling || b.resume().phase is ResolveStart,
        b.resume().phase is ResolveStart ==> b.resume().seen.len() > b.seen.len(),
    decreases b.pending.len(),
{
    if b.pending.len() > 0 {
        let rest = BrowserView { pending: b.pending.drop_first(), ..b };
        let taken = BrowserView { seen: b.seen.push(b.pending[0].name), ..rest };
        lemma_resume(rest);
        if !b.seen.contains(b.pending[0].name) {
            lemma_resume(taken);
        }
    }
}

/// Every event leaves a well-formed discovery well-formed.
pub proof fn law_wf_is_kept(b: BrowserView, event: EventView)
    requires
        b.wf(),
    ensures
        b.next(event).wf(),
{
    lemma_resume(b);
    if let EventView::Browsed { found, .. } = event {
        lemma_resume(BrowserView { pending: b.pending + found, ..b });
    }
    if let PhaseView::AddrClose { resolved, found: Some(ip), .. } = b.phase {
        let response = response_for(b.svc, resolved, ip);
        assert(response.answers[0].name == b.svc);
    }
}

/// Whether `name` is one of `seen`.
fn is_seen(seen: &Vec<String>, name: &String) -> (found: bool)
    ensures
        found == seen.deep_view().contains(name@),
{
    let mut i: usize = 0;
    while i < seen.len()
        invariant
            i <= seen@.len(),
            forall|j: int| 0 <= j < i ==> (#[trigger] seen.deep_view()[j]) != name@,
        decreases seen@.len() - i,
    {
        assert(seen.deep_view()[i as int] == seen@[i as int]@);
        if seen[i] == *name {
            return true;
        }
        i += 1;
    }
    false
}

impl Browser {
    #[verifier::type_invariant]
    spec fn inv(self) -> bool {
        self@.wf()
    }

    /// A discovery of the instances of the service `svc`, e.g. `"_rpc._tcp.local"`.
    pub fn new(svc: String) -> (browser: Browser)
        ensures
            browser@ == BrowserView::start(svc@),
            browser@.wf(),
    {
        let (regtype, domain) = split_svc(svc.as_str());
        let phase = match (cstring(regtype.as_str()), cstring(domain.as_str())) {
            (Some(regtype), Some(domain)) => Phase::Start { regtype, domain },
            _ => Phase::Stopped,
        };
        let seen: Vec<String> = Vec::new();
        let pending: Vec<Instance> = Vec::new();
        let ghost start = BrowserView::start(svc@);
        assert(seen.deep_view() =~= start.seen);
        assert(crate::dnssd::instances(pending@) =~= start.pending);
        Browser { svc, seen, pending, phase }
    }

    /// What is to be done next.
    pub fn action(&self) -> (action: Action<'_>)
        ensures
            action@ == self@.phase.action(),
            self@.phase.action() == match action {
                Action::Browse { regtype, domain } => ActionView::Browse {
                    regtype: regtype@,
                    domain: domain@,
                },
                Action::Resolve { request } => ActionView::Resolve {
                    request: ResolveRequestView {
                        name: request.name@,
                        regtype: request.regtype@,
                        domain: request.domain@,
                    },
                },
                Action::GetAddrInfo { host } => ActionView::GetAddrInfo { host: host@ },
                Action::Clock => ActionView::Clock,
                Action::Wait { operation, nanos } => ActionView::Wait { operation, nanos },
                Action::Process { operation } => ActionView::Process { operation },
                Action::Release { operation } => ActionView::Release { operation },
                Action::Send { name, response } => ActionView::Send {
                    name: name@,
                    response: response@,
                },
                Action::Stop => ActionView::Stop,
            },
    {
        match &self.phase {
            Phase::Start { regtype, domain } => Action::Browse { regtype, domain },
            Phase::Polling => Action::Wait { operation: Operation::Browse, nanos: SLICE },
            Phase::Processing => Action::Process { operation: Operation::Browse },
            Phase::ResolveStart { request, .. } => Action::Resolve { request },
            Phase::ResolvePoll { poll, .. } => Self::for_poll(Operation::Resolve, *poll),
            Phase::ResolveClose { .. } => Action::Release { operation: Operation::Resolve },
            Phase::AddrStart { host, .. } => Action::GetAddrInfo { host },
            Phase::AddrPoll { poll, .. } => Self::for_poll(Operation::AddrInfo, *poll),
            Phase::AddrClose { .. } => Action::Release { operation: Operation::AddrInfo },
            Phase::Sending { name, response } => Action::Send { name, response },
            Phase::Closing => Action::Release { operation: Operation::Browse },
            Phase::Stopped => Action::Stop,
        }
    }

    fn for_poll<'a>(operation: Operation, poll: Poll) -> (action: Action<'a>)
        ensures
            action@ == poll_action(operation, poll),
    {
        match poll {
            Poll::Clock => Action::Clock,
            Poll::Wait { nanos } => Action::Wait { operation, nanos },
            Poll::Process => Action::Process { operation },
            Poll::Finished => Action::Release { operation },
        }
    }

    /// Takes up the next pending instance that was not seen before and can be resolved.
    fn resume(svc: String, known: Vec<String>, found: Vec<Instance>) -> (browser: Browser)
        requires
            known.deep_view().no_duplicates(),
        ensures
            browser@ == (BrowserView {
                svc: svc@,
                seen: known.deep_view(),
                pending: crate::dnssd::instances(found@),
                phase: PhaseView::Polling,
            }).resume(),
    {
        let ghost start = BrowserView {
            svc: svc@,
            seen: known.deep_view(),
            pending: crate::dnssd::instances(found@),
            phase: PhaseView::Polling,
        };
        let mut seen = known;
        let mut pending = found;
        proof {
            lemma_resume(start);
        }
        while pending.len() > 0
            invariant
                seen.deep_view().no_duplicates(),
                start == (BrowserView {
                    svc: svc@,
                    seen: known.deep_view(),
                    pending: crate::dnssd::instances(found@),
                    phase: PhaseView::Polling,
                }),
                start.resume().wf(),
                (BrowserView {
                    svc: svc@,
                    seen: seen.deep_view(),
                    pending: crate::dnssd::instances(pending@),
                    phase: PhaseView::Polling,
                }).resume() == start.resume(),
            decreases pending@.len(),
        {
            let ghost views = crate::dnssd::instances(pending@);
            let ghost before = seen.deep_view();
            let instance = pending.remove(0);
            assert(views[0] == instance@);
            assert(crate::dnssd::instances(pending@) =~= views.drop_first());
            if is_seen(&seen, &instance.name) {
                continue;
            }
            seen.push(instance.name.clone());
            assert(seen.deep_view() =~= before.push(instance.name@));
            let request = do_resolve(
                instance.name.as_str(),
                instance.regtype.as_str(),
                instance.domain.as_str(),
            );
            if let Some(request) = request {
                return Browser {
                    svc,
                    seen,
                    pending,
                    phase: Phase::ResolveStart { name: instance.name, request },
                };
            }
        }
        Browser { svc, seen, pending, phase: Phase::Polling }
    }

    fn resolving(name: String, poll: Poll, found: Option<Resolved>) -> (phase: Phase)
        ensures
            phase.view() == resolving(name@, poll, crate::dnssd::resolved_slot(found)),
    {
        match poll {
            Poll::Finished => Phase::ResolveClose { name, found },
            _ => Phase::ResolvePoll { name, poll },
        }
    }

    fn addressing(name: String, resolved: Resolved, poll: Poll, found: Option<Ipv4Addr>) -> (phase:
        Phase)
        ensures
            phase.view() == addressing(name@, resolved@, poll, found),
    {
        match poll {
            Poll::Finished => Phase::AddrClose { name, resolved, found },
            _ => Phase::AddrPoll { name, resolved, poll },
        }
    }

    /// The discovery after `event`, the outcome of the action that was to be done. Any other
    /// event changes nothing.
    pub fn step(self, event: Event) -> (next: Browser)
        ensures
            next@ == self@.next(event@),
            next@.wf(),
    {
        proof {
            use_type_invariant(&self);
            law_wf_is_kept(self@, event@);
            lemma_resume_phase(self@, PhaseView::Polling);
        }
        let ghost expected = self@.next(event@);
        let ghost current = self@;
        let Browser { svc, seen, pending, phase } = self;
        let phase = match (phase, event) {
            (Phase::Start { .. }, Event::Started { err }) => if err != NO_ERR {
                Phase::Stopped
            } else {
                Phase::Polling
            },
            (Phase::Polling, Event::Waited { readable }) => if readable {
                Phase::Processing
            } else {
                return Self::resume(svc, seen, pending);
            },
            (Phase::Processing, Event::Browsed { err, found }) => if err != NO_ERR {
                Phase::Closing
            } else {
                let mut found = found;
                let mut pending = pending;
                let ghost added = crate::dnssd::instances(found@);
                pending.append(&mut found);
                proof {
                    assert(crate::dnssd::instances(pending@) =~= current.pending + added);
                    lemma_resume_phase(
                        BrowserView { pending: current.pending + added, ..current },
                        PhaseView::Polling,
                    );
                }
                return Self::resume(svc, seen, pending);
            },
            (Phase::ResolveStart { name, .. }, Event::Started { err }) => if err != NO_ERR {
                return Self::resume(svc, seen, pending);
            } else {
                let poll = poll_until(LOOKUP_TIMEOUT, false, PollEvent::Begin);
                Self::resolving(name, poll, None)
            },
            (Phase::ResolvePoll { name, poll: Poll::Clock }, Event::Clock { elapsed }) => {
                let poll = poll_until(LOOKUP_TIMEOUT, false, PollEvent::Clock { elapsed });
                Self::resolving(name, poll, None)
            },
            (
                Phase::ResolvePoll { name, poll: Poll::Wait { .. } },
                Event::Waited { readable },
            ) => {
                let poll = poll_until(LOOKUP_TIMEOUT, false, PollEvent::Waited { readable });
                Self::resolving(name, poll, None)
            },
            (
                Phase::ResolvePoll { name, poll: Poll::Process },
                Event::Resolved { err, found },
            ) => {
                let done = found.is_some();
                let poll = poll_until(LOOKUP_TIMEOUT, done, PollEvent::Processed { err });
                Self::resolving(name, poll, found)
            },
            (Phase::ResolveClose { name, found }, Event::Released) => {
                let resolved = match found {
                    Some(resolved) => resolved,
                    None => return Self::resume(svc, seen, pending),
                };
                match do_addr(resolved.host.as_str()) {
                    Some(host) => Phase::AddrStart { name, resolved, host },
                    None => return Self::resume(svc, seen, pending),
                }
            },
            (Phase::AddrStart { name, resolved, .. }, Event::Started { err }) => if err
                != NO_ERR {
                return Self::resume(svc, seen, pending);
            } else {
                let poll = poll_until(LOOKUP_TIMEOUT, false, PollEvent::Begin);
                Self::addressing(name, resolved, poll, None)
            },
            (Phase::AddrPoll { name, resolved, poll: Poll::Clock }, Event::Clock { elapsed }) => {
                let poll = poll_until(LOOKUP_TIMEOUT, false, PollEvent::Clock { elapsed });
                Self::addressing(name, resolved, poll, None)
            },
            (
                Phase::AddrPoll { name, resolved, poll: Poll::Wait { .. } },
                Event::Waited { readable },
            ) => {
                let poll = poll_until(LOOKUP_TIMEOUT, false, PollEvent::Waited { readable });
                Self::addressing(name, resolved, poll, None)
            },
            (
                Phase::AddrPoll { name, resolved, poll: Poll::Process },
                Event::Addressed { err, found },
            ) => {
                let done = found.is_some();
                let poll = poll_until(LOOKUP_TIMEOUT, done, PollEvent::Processed { err });
                Self::addressing(name, resolved, poll, found)
            },
            (Phase::AddrClose { name, resolved, found }, Event::Released) => {
                let ip = match found {
                    Some(ip) => ip,
                    None => return Self::resume(svc, seen, pending),
                };
                let txt = resolved.txt.as_slice();
                assert(txt.deep_view() =~= resolved.txt.deep_view());
                let response = build_response(
                    svc.as_str(),
                    nodot(resolved.fullname.as_str()),
                    ip,
                    resolved.port,
                    txt,
                );
                Phase::Sending { name, response }
            },
            (Phase::Sending { .. }, Event::Sent { closed }) => if closed {
                Phase::Closing
            } else {
                return Self::resume(svc, seen, pending);
            },
            (Phase::Closing, Event::Released) => Phase::Stopped,
            (phase, _) => phase,
        };
        assert(expected == current.at(phase.view()));
        Browser { svc, seen, pending, phase }
    }
}

/// What `event` does to what was seen: nothing is forgotten, and only an instance that was not
/// seen before comes to be looked up.
proof fn lemma_next(b: BrowserView, event: EventView)
    requires
        b.wf(),
    ensures
        b.next(event).wf(),
        b.next(event).svc == b.svc,
        b.seen.is_prefix_of(b.next(event).seen),
        b.next(event).phase.instance() is Some && b.phase.instance() is None ==> b.next(
            event,
        ).seen.len() > b.seen.len(),
        b.next(event).phase is ResolveStart ==> b.next(event) == b || b.next(event).seen.len()
            > b.seen.len(),
        b.phase is Sending && event is Sent && b.next(event).phase.instance() is Some ==> b.next(
            event,
        ).seen.len() > b.seen.len(),
        b.phase is ResolveStart && event is Started && b.next(event).phase is ResolveStart
            ==> b.next(event).seen.len() > b.seen.len(),
{
    law_wf_is_kept(b, event);
    lemma_resume(b);
    if let EventView::Browsed { found, .. } = event {
        lemma_resume(BrowserView { pending: b.pending + found, ..b });
    }
}

/// Whether `states` are the states of a discovery of `svc` to which `events` happen in turn.
pub open spec fn is_run(svc: Seq<char>, states: Seq<BrowserView>, events: Seq<EventView>) -> bool {
    &&& states.len() == events.len() + 1
    &&& states[0] == BrowserView::start(svc)
    &&& forall|i: int|
        #![trigger events[i]]
        0 <= i < events.len() ==> states[i + 1] == states[i].next(events[i])
}

/// Along a run all states are well-formed and nothing that was seen is forgotten.
proof fn lemma_run(svc: Seq<char>, states: Seq<BrowserView>, events: Seq<EventView>, i: int, j: int)
    requires
        is_run(svc, states, events),
        0 <= i <= j < states.len(),
    ensures
        states[i].wf(),
        states[j].wf(),
        states[j].svc == svc,
        states[i].seen.is_prefix_of(states[j].seen),
    decreases i + j,
{
    if j > 0 {
        let e = events[j - 1];
        if i < j {
            lemma_run(svc, states, events, i, j - 1);
            lemma_next(states[j - 1], e);
        } else {
            lemma_run(svc, states, events, i - 1, j - 1);
            lemma_next(states[j - 1], e);
        }
    }
}

/// After an instance was sent, or a resolve of it was started, what comes to be sent or
/// resolved later was seen later.
proof fn lemma_run_moves_on(
    svc: Seq<char>,
    states: Seq<BrowserView>,
    events: Seq<EventView>,
    i: int,
    j: int,
)
    requires
        is_run(svc, states, events),
        0 <= i < j < states.len(),
    ensures
        states[i].phase is Sending && events[i] is Sent && states[j].phase.instance() is Some
            ==> states[j].seen.len() > states[i].seen.len(),
        states[i].phase is ResolveStart && events[i] is Started && states[j].phase is ResolveStart
            ==> states[j].seen.len() > states[i].seen.len(),
    decreases j,
{
    lemma_run(svc, states, events, i, j - 1);
    lemma_next(states[j - 1], events[j - 1]);
    if i < j - 1 {
        lemma_run_moves_on(svc, states, events, i, j - 1);
    }
}

/// No instance is announced twice: two responses that are sent in the course of a discovery
/// are for instances of different names.
pub proof fn law_no_instance_is_sent_twice(
    svc: Seq<char>,
    states: Seq<BrowserView>,
    events: Seq<EventView>,
    i: int,
    j: int,
)
    requires
        is_run(svc, states, events),
        0 <= i < j < events.len(),
        states[i].phase is Sending && events[i] is Sent,
        states[j].phase is Sending && events[j] is Sent,
    ensures
        states[i].phase.instance() != states[j].phase.instance(),
{
    lemma_run(svc, states, events, i, j);
    lemma_run_moves_on(svc, states, events, i, j);
    let seen = states[j].seen;
    assert(seen[states[i].seen.len() - 1] == states[i].seen.last());
}

/// No instance is resolved twice: two resolves that are started in the course of a discovery
/// are of instances of different names.
pub proof fn law_no_instance_is_resolved_twice(
    svc: Seq<char>,
    states: Seq<BrowserView>,
    events: Seq<EventView>,
    i: int,
    j: int,
)
    requires
        is_run(svc, states, events),
        0 <= i < j < events.len(),
        states[i].phase is ResolveStart && events[i] is Started,
        states[j].phase is ResolveStart && events[j] is Started,
    ensures
        states[i].phase.instance() != states[j].phase.instance(),
{
    lemma_run(svc, states, events, i, j);
    lemma_run_moves_on(svc, states, events, i, j);
    let seen = states[j].seen;
    assert(seen[states[i].seen.len() - 1] == states[i].seen.last());
}

/// Every response that is to be sent in the course of a discovery answers for the service that
/// is looked for.
pub proof fn law_sent_responses_answer(
    svc: Seq<char>,
    states: Seq<BrowserView>,
    events: Seq<EventView>,
    i: int,
)
    requires
        is_run(svc, states, events),
        0 <= i < states.len(),
    ensures
        states[i].phase.action() matches ActionView::Send { response, .. } ==> response.answers_for(
            svc,
        ),
{
    lemma_run(svc, states, events, i, i);
}

impl BrowserView {
    /// Whether an instance `name` was taken up or is pending.
    pub open spec fn knows(self, name: Seq<char>) -> bool {
        ||| self.seen.contains(name)
        ||| exists|i: int| 0 <= i < self.pending.len() && (#[trigger] self.pending[i]).name == name
    }
}

/// Which instances are known does not depend on the phase.
proof fn lemma_knows_at(b: BrowserView, phase: PhaseView, name: Seq<char>)
    requires
        b.knows(name),
    ensures
        b.at(phase).knows(name),
{
    let at = b.at(phase);
    if !b.seen.contains(name) {
        let k = choose|i: int| 0 <= i < b.pending.len() && (#[trigger] b.pending[i]).name == name;
        assert(at.pending[k].name == name);
    }
}

/// A discovery that resumes forgets no instance.
proof fn lemma_resume_knows(b: BrowserView, name: Seq<char>)
    requires
        b.knows(name),
    ensures
        b.resume().knows(name),
    decreases b.pending.len(),
{
    if b.pending.len() == 0 {
        lemma_knows_at(b, PhaseView::Polling, name);
    } else {
        let first = b.pending[0].name;
        let rest = BrowserView { pending: b.pending.drop_first(), ..b };
        let taken = BrowserView { seen: b.seen.push(first), ..rest };
        if b.seen.contains(name) {
            let k = b.seen.index_of(name);
            assert(taken.seen[k] == name);
        } else {
            let k = choose|i: int| 0 <= i < b.pending.len() && (#[trigger] b.pending[i]).name == name;
            if k == 0 {
                assert(taken.seen[b.seen.len() as int] == name);
            } else {
                assert(rest.pending[k - 1].name == name);
                assert(taken.pending[k - 1].name == name);
            }
        }
        if b.seen.contains(first) {
            lemma_resume_knows(rest, name);
        } else {
            lemma_resume_knows(taken, name);
            lemma_knows_at(taken, b.resume().phase, name);
        }
    }
}

/// No instance is lost: one that the browse adds is taken up or pending from then on, and
/// while the browse is waited for none is pending.
pub proof fn law_no_instance_is_lost(b: BrowserView, event: EventView, name: Seq<char>)
    requires
        b.wf(),
    ensures
        b.knows(name) ==> b.next(event).knows(name),
        b.phase is Processing && (event matches EventView::Browsed { err, found } && err == NO_ERR
            && exists|i: int| 0 <= i < found.len() && (#[trigger] found[i]).name == name) ==> b.next(
            event,
        ).knows(name),
        b.phase is Polling && b.knows(name) ==> b.seen.contains(name),
{
    if b.knows(name) {
        lemma_resume_knows(b, name);
        lemma_knows_at(b, b.next(event).phase, name);
    }
    if let EventView::Browsed { found, .. } = event {
        let more = BrowserView { pending: b.pending + found, ..b };
        if b.knows(name) {
            if !b.seen.contains(name) {
                let k = choose|i: int|
                    0 <= i < b.pending.len() && (#[trigger] b.pending[i]).name == name;
                assert(more.pending[k].name == name);
            }
            lemma_resume_knows(more, name);
        }
        if exists|i: int| 0 <= i < found.len() && (#[trigger] found[i]).name == name {
            let k = choose|i: int| 0 <= i < found.len() && (#[trigger] found[i]).name == name;
            assert(more.pending[b.pending.len() + k].name == name);
            lemma_resume_knows(more, name);
        }
    }
}

/// Whether `name` is among the instances that `event` reports.
pub open spec fn reports(event: EventView, name: Seq<char>) -> bool {
    event matches EventView::Browsed { err, found } && err == NO_ERR && exists|i: int|
        0 <= i < found.len() && (#[trigger] found[i]).name == name
}

/// A discovery that resumes makes up no instance.
proof fn lemma_resume_knew(b: BrowserView, name: Seq<char>)
    requires
        b.resume().knows(name),
    ensures
        b.knows(name),
    decreases b.pending.len(),
{
    if b.pending.len() == 0 {
        lemma_knows_at(b.resume(), b.phase, name);
        assert(b.resume().at(b.phase) == b);
    } else {
        let first = b.pending[0].name;
        let rest = BrowserView { pending: b.pending.drop_first(), ..b };
        let taken = BrowserView { seen: b.seen.push(first), ..rest };
        if b.seen.contains(first) {
            lemma_resume_knew(rest, name);
        } else {
            if resolve_request(b.pending[0]) is Some {
                lemma_knows_at(b.resume(), taken.phase, name);
                assert(b.resume().at(taken.phase) == taken);
            } else {
                lemma_resume_knew(taken, name);
            }
            if taken.seen.contains(name) && !b.seen.contains(name) {
                let k = taken.seen.index_of(name);
                assert(k == b.seen.len());
                assert(b.pending[0].name == name);
            }
        }
        if !b.seen.contains(name) && b.pending[0].name != name {
            let k = choose|i: int|
                0 <= i < rest.pending.len() && (#[trigger] rest.pending[i]).name == name;
            assert(b.pending[k + 1].name == name);
        }
    }
}

/// An event makes an instance known only by reporting it.
proof fn lemma_next_knew(b: BrowserView, event: EventView, name: Seq<char>)
    requires
        b.next(event).knows(name),
    ensures
        b.knows(name) || b.phase is Processing && reports(event, name),
{
    let next = b.next(event);
    if next == b.resume() {
        lemma_resume_knew(b, name);
    } else if next == b.at(next.phase) {
        lemma_knows_at(next, b.phase, name);
        assert(next.at(b.phase) == b);
    } else if let EventView::Browsed { found, .. } = event {
        let more = BrowserView { pending: b.pending + found, ..b };
        lemma_resume_knew(more, name);
        if !b.seen.contains(name) {
            let k = choose|i: int|
                0 <= i < more.pending.len() && (#[trigger] more.pending[i]).name == name;
            if k < b.pending.len() {
                assert(b.pending[k].name == name);
            } else {
                assert(found[k - b.pending.len()].name == name);
            }
        }
    }
}

/// Along a run, an instance that is known was reported before.
proof fn lemma_run_reported(
    svc: Seq<char>,
    states: Seq<BrowserView>,
    events: Seq<EventView>,
    j: int,
    name: Seq<char>,
)
    requires
        is_run(svc, states, events),
        0 <= j < states.len(),
        states[j].knows(name),
    ensures
        exists|k: int|
            0 <= k < j && states[k].phase is Processing && reports(#[trigger] events[k], name),
    decreases j,
{
    if j > 0 {
        lemma_next_knew(states[j - 1], events[j - 1], name);
        if states[j - 1].knows(name) {
            lemma_run_reported(svc, states, events, j - 1, name);
        }
    }
}

/// No instance is made up: one that is looked up, or whose response is sent, in the course of a
/// discovery was reported by the browse before.
pub proof fn law_no_instance_is_made_up(
    svc: Seq<char>,
    states: Seq<BrowserView>,
    events: Seq<EventView>,
    j: int,
)
    requires
        is_run(svc, states, events),
        0 <= j < states.len(),
        states[j].phase.instance() is Some,
    ensures
        exists|k: int|
            0 <= k < j && states[k].phase is Processing && reports(
                #[trigger] events[k],
                states[j].phase.instance()->0,
            ),
{
    let name = states[j].phase.instance()->0;
    lemma_run(svc, states, events, j, j);
    assert(states[j].seen[states[j].seen.len() - 1] == name);
    lemma_run_reported(svc, states, events, j, name);
}

impl ActionView {
    /// Whether the action starts `operation`.
    pub open spec fn starts(self, operation: Operation) -> bool {
        match operation {
            Operation::Browse => self is Browse,
            Operation::Resolve => self is Resolve,
            Operation::AddrInfo => self is GetAddrInfo,
        }
    }

    /// Whether the action uses the reference of `operation`.
    pub open spec fn uses(self, operation: Operation) -> bool {
        ||| (self matches ActionView::Wait { operation: used, .. } && used == operation)
        ||| (self matches ActionView::Process { operation: used } && used == operation)
        ||| (self matches ActionView::Release { operation: used } && used == operation)
    }
}

/// References are balanced: one is held from the start of its operation without an error until
/// it is released, and none is held when the discovery is over. Only references that are held
/// are used, and no operation is started of which one is held.
pub proof fn law_references_are_balanced(b: BrowserView, event: EventView, operation: Operation)
    requires
        b.wf(),
    ensures
        ({
            let action = b.phase.action();
            let held = b.phase.holds(operation);
            let started = action.starts(operation) && event == (EventView::Started { err: NO_ERR });
            let released = action == (ActionView::Release { operation }) && event is Released;
            &&& b.next(event).phase.holds(operation) == (held && !released || started)
            &&& action.uses(operation) ==> held
            &&& action.starts(operation) ==> !held
            &&& action is Stop ==> !held
        }),
{
    lemma_resume(b);
    if let EventView::Browsed { found, .. } = event {
        lemma_resume(BrowserView { pending: b.pending + found, ..b });
    }
}

/// A result is processed only when it can be read: processing is asked for right after a wait
/// for the same operation that found it readable.
pub proof fn law_results_are_processed_when_readable(
    b: BrowserView,
    event: EventView,
    operation: Operation,
)
    requires
        b.wf(),
        b.next(event) != b,
        b.next(event).phase.action() == (ActionView::Process { operation }),
    ensures
        b.phase.action() matches ActionView::Wait { operation: waited, .. } && waited == operation,
        event == (EventView::Waited { readable: true }),
{
    lemma_resume(b);
    if let EventView::Browsed { found, .. } = event {
        lemma_resume(BrowserView { pending: b.pending + found, ..b });
    }
}

/// A resolve or an address lookup is waited for in slices of 100 ms at most, never beyond two
/// seconds, and is released once these have passed.
pub proof fn law_lookups_take_two_seconds_at_most(b: BrowserView, elapsed: u128)
    requires
        b.phase.action() is Clock,
    ensures
        match b.next(EventView::Clock { elapsed }).phase.action() {
            ActionView::Wait { nanos, .. } => 0 < nanos <= 100_000_000 && elapsed + nanos
                <= 2_000_000_000,
            ActionView::Release { .. } => elapsed >= 2_000_000_000,
            _ => false,
        },
{
}

/// The discovery after `events` have happened in turn.
pub open spec fn after(b: BrowserView, events: Seq<EventView>) -> BrowserView
    decreases events.len(),
{
    if events.len() == 0 {
        b
    } else {
        after(b, events.drop_last()).next(events.last())
    }
}

/// What happens to a discovery in two parts happens to it in turn.
proof fn lemma_after_concat(b: BrowserView, first: Seq<EventView>, then: Seq<EventView>)
    ensures
        after(b, first + then) == after(after(b, first), then),
    decreases then.len(),
{
    if then.len() == 0 {
        assert(first + then =~= first);
    } else {
        lemma_after_concat(b, first, then.drop_last());
        assert((first + then).drop_last() =~= first + then.drop_last());
    }
}

/// One event takes a discovery one step on.
proof fn lemma_after_one(b: BrowserView, event: EventView)
    ensures
        after(b, seq![event]) == b.next(event),
{
    assert(seq![event].drop_last() =~= seq![]);
    assert(after(b, seq![]) == b);
}

/// The reply to a processed result of `operation` that tells nothing.
pub open spec fn nothing_found(operation: Operation) -> EventView {
    match operation {
        Operation::Browse => EventView::Browsed { err: NO_ERR, found: seq![] },
        Operation::Resolve => EventView::Resolved { err: NO_ERR, found: None },
        Operation::AddrInfo => EventView::Addressed { err: NO_ERR, found: None },
    }
}

/// Whether `round` is a round of polling `operation`, begun within its time, that brings
/// nothing: no result can be read, or the one that is processed tells nothing.
pub open spec fn is_fruitless(operation: Operation, round: Seq<EventView>) -> bool {
    &&& round.len() >= 2
    &&& round[0] matches EventView::Clock { elapsed } && elapsed < LOOKUP_TIMEOUT
    &&& {
        ||| round.len() == 2 && round[1] == (EventView::Waited { readable: false })
        ||| round.len() == 3 && round[1] == (EventView::Waited { readable: true }) && round[2]
            == nothing_found(operation)
    }
}

/// Whether a lookup by `operation` is about to begin a round of polling.
pub open spec fn begins_round(phase: PhaseView, operation: Operation) -> bool {
    match operation {
        Operation::Browse => false,
        Operation::Resolve => phase matches PhaseView::ResolvePoll { poll, .. } && poll is Clock,
        Operation::AddrInfo => phase matches PhaseView::AddrPoll { poll, .. } && poll is Clock,
    }
}

/// A fruitless round of polling leaves a lookup where it was.
pub proof fn law_fruitless_round_changes_nothing(
    b: BrowserView,
    operation: Operation,
    round: Seq<EventView>,
)
    requires
        begins_round(b.phase, operation),
        is_fruitless(operation, round),
    ensures
        after(b, round) == b,
{
    lemma_after_one(b, round[0]);
    lemma_after_concat(b, seq![round[0]], seq![round[1]]);
    lemma_after_one(b.next(round[0]), round[1]);
    let two = seq![round[0]] + seq![round[1]];
    if round.len() == 2 {
        assert(two =~= round);
    } else {
        lemma_after_concat(b, two, seq![round[2]]);
        lemma_after_one(after(b, two), round[2]);
        assert(two + seq![round[2]] =~= round);
    }
    assert(after(b, round) == b);
}

/// Any number of fruitless rounds of polling leaves a lookup where it was.
pub proof fn law_fruitless_rounds_change_nothing(
    b: BrowserView,
    operation: Operation,
    rounds: Seq<Seq<EventView>>,
)
    requires
        begins_round(b.phase, operation),
        forall|i: int| 0 <= i < rounds.len() ==> is_fruitless(operation, #[trigger] rounds[i]),
    ensures
        after(b, rounds.flatten()) == b,
    decreases rounds.len(),
{
    if rounds.len() > 0 {
        law_fruitless_round_changes_nothing(b, operation, rounds[0]);
        law_fruitless_rounds_change_nothing(b, operation, rounds.drop_first());
        lemma_after_concat(b, rounds[0], rounds.drop_first().flatten());
        assert(rounds.flatten() == rounds[0] + rounds.drop_first().flatten());
    } else {
        assert(after(b, seq![]) == b);
    }
}

/// The course of a lookup that starts, goes through `rounds` that bring nothing, and in a round
/// begun after `elapsed` nanoseconds gets the reply `reply`, with which it is over.
pub open spec fn lookup_events(
    rounds: Seq<Seq<EventView>>,
    elapsed: u128,
    reply: EventView,
) -> Seq<EventView> {
    seq![EventView::Started { err: NO_ERR }] + rounds.flatten() + seq![
        EventView::Clock { elapsed },
        EventView::Waited { readable: true },
        reply,
        EventView::Released,
    ]
}

/// What a lookup comes to.
proof fn lemma_lookup(
    b: BrowserView,
    operation: Operation,
    rounds: Seq<Seq<EventView>>,
    elapsed: u128,
    reply: EventView,
)
    requires
        begins_round(b.next(EventView::Started { err: NO_ERR }).phase, operation),
        forall|i: int| 0 <= i < rounds.len() ==> is_fruitless(operation, #[trigger] rounds[i]),
    ensures
        after(b, lookup_events(rounds, elapsed, reply)) == b.next(
            EventView::Started { err: NO_ERR },
        ).next(EventView::Clock { elapsed }).next(EventView::Waited { readable: true }).next(
            reply,
        ).next(EventView::Released),
{
    let started = EventView::Started { err: NO_ERR };
    let clock = EventView::Clock { elapsed };
    let waited = EventView::Waited { readable: true };
    let polling = b.next(started);
    lemma_after_one(b, started);
    law_fruitless_rounds_change_nothing(polling, operation, rounds);
    lemma_after_concat(b, seq![started], rounds.flatten());
    let last = seq![clock, waited, reply, EventView::Released];
    lemma_after_concat(b, seq![started] + rounds.flatten(), last);
    lemma_after_one(polling, clock);
    lemma_after_concat(polling, seq![clock], seq![waited]);
    lemma_after_one(polling.next(clock), waited);
    let two = seq![clock] + seq![waited];
    lemma_after_concat(polling, two, seq![reply]);
    lemma_after_one(polling.next(clock).next(waited), reply);
    let three = two + seq![reply];
    lemma_after_concat(polling, three, seq![EventView::Released]);
    lemma_after_one(polling.next(clock).next(waited).next(reply), EventView::Released);
    assert(three + seq![EventView::Released] =~= last);
}

/// A lookup chains a resolve and an address lookup: if both start and find something within
/// their time, after any number of rounds of polling that bring nothing, the response for what
/// they found is to be sent next. What is found with an error code counts too.
pub proof fn law_lookup_leads_to_response(
    b: BrowserView,
    resolved: ResolvedView,
    ip: Ipv4Addr,
    resolve_rounds: Seq<Seq<EventView>>,
    resolve_elapsed: u128,
    resolve_err: i32,
    addr_rounds: Seq<Seq<EventView>>,
    addr_elapsed: u128,
    addr_err: i32,
)
    requires
        b.phase is ResolveStart,
        !resolved.host.contains('\0'),
        forall|i: int|
            0 <= i < resolve_rounds.len() ==> is_fruitless(
                Operation::Resolve,
                #[trigger] resolve_rounds[i],
            ),
        forall|i: int|
            0 <= i < addr_rounds.len() ==> is_fruitless(
                Operation::AddrInfo,
                #[trigger] addr_rounds[i],
            ),
        resolve_elapsed < LOOKUP_TIMEOUT,
        addr_elapsed < LOOKUP_TIMEOUT,
    ensures
        ({
            let name = b.phase.instance()->0;
            let response = response_for(b.svc, resolved, ip);
            let events = lookup_events(
                resolve_rounds,
                resolve_elapsed,
                EventView::Resolved { err: resolve_err, found: Some(resolved) },
            ) + lookup_events(
                addr_rounds,
                addr_elapsed,
                EventView::Addressed { err: addr_err, found: Some(ip) },
            );
            &&& after(b, events) == b.at(PhaseView::Sending { name, response })
            &&& after(b, events).phase.action() == ActionView::Send { name, response }
        }),
{
    let name = b.phase.instance()->0;
    let resolve_reply = EventView::Resolved { err: resolve_err, found: Some(resolved) };
    let addr_reply = EventView::Addressed { err: addr_err, found: Some(ip) };
    let first = lookup_events(resolve_rounds, resolve_elapsed, resolve_reply);
    let then = lookup_events(addr_rounds, addr_elapsed, addr_reply);
    lemma_lookup(b, Operation::Resolve, resolve_rounds, resolve_elapsed, resolve_reply);
    let host = crate::text::c_bytes(resolved.host)->0;
    let between = b.at(PhaseView::AddrStart { name, resolved, host });
    assert(after(b, first) == between);
    lemma_lookup(between, Operation::AddrInfo, addr_rounds, addr_elapsed, addr_reply);
    lemma_after_concat(b, first, then);
}

/// If the receiver of the responses is gone, the browse is released and the discovery is over
/// for good.
pub proof fn law_discovery_ends_with_its_receiver(b: BrowserView, event: EventView)
    ensures
        b.phase is Sending ==> b.next(EventView::Sent { closed: true }).phase.action() == (
        ActionView::Release { operation: Operation::Browse }),
        b.phase is Closing ==> b.next(EventView::Released).phase.action() is Stop,
        b.phase is Stopped ==> b.next(event) == b,
{
}

/// What an event tells is what was found: the view of an event shows its error code, time and
/// outcome, and of a processed result all that it found.
pub proof fn law_event_shows_what_was_found(event: Event)
    ensures
        match event {
            Event::Started { err } => event@ == (EventView::Started { err }),
            Event::Clock { elapsed } => event@ == (EventView::Clock { elapsed }),
            Event::Waited { readable } => event@ == (EventView::Waited { readable }),
            Event::Browsed { err, found } => event@ matches EventView::Browsed {
                err: code,
                found: views,
            } && code == err && views.len() == found@.len() && forall|i: int|
                0 <= i < found@.len() ==> (#[trigger] views[i]).name == found@[i].name@
                    && views[i].regtype == found@[i].regtype@ && views[i].domain
                    == found@[i].domain@,
            Event::Resolved { err, found } => event@ matches EventView::Resolved {
                err: code,
                found: view,
            } && code == err && match (found, view) {
                (Some(resolved), Some(v)) => {
                    &&& v.fullname == resolved.fullname@ && v.host == resolved.host@
                    &&& v.port == resolved.port && v.txt.len() == resolved.txt@.len()
                    &&& forall|i: int|
                        0 <= i < v.txt.len() ==> #[trigger] v.txt[i] == resolved.txt@[i]@
                },
                (None, None) => true,
                _ => false,
            },
            Event::Addressed { err, found } => event@ == (EventView::Addressed { err, found }),
            Event::Released => event@ is Released,
            Event::Sent { closed } => event@ == (EventView::Sent { closed }),
        },
{
}

/// A resolve is asked for exactly of an instance without a nul in its texts, and then with the
/// UTF-8 bytes of these, each followed by a nul.
pub proof fn law_resolve_is_asked_for_by_c_strings(instance: InstanceView)
    ensures
        resolve_request(instance) is None <==> instance.name.contains('\0')
            || instance.regtype.contains('\0') || instance.domain.contains('\0'),
        resolve_request(instance) matches Some(request) ==> {
            &&& request.name == vstd::utf8::encode_utf8(instance.name).push(0u8)
            &&& request.regtype == vstd::utf8::encode_utf8(instance.regtype).push(0u8)
            &&& request.domain == vstd::utf8::encode_utf8(instance.domain).push(0u8)
        },
{
}

/// A discovery of a service begins with nothing seen or pending and asks for a browse of the
/// type and the domain of the service, unless the service name holds a nul: then it is over.
pub proof fn law_discovery_begins_with_a_browse(svc: Seq<char>)
    ensures
        ({
            let b = BrowserView::start(svc);
            let (regtype, domain) = crate::text::service_parts(svc);
            &&& b.svc == svc && b.seen.len() == 0 && b.pending.len() == 0
            &&& svc.contains('\0') ==> b.phase is Stopped
            &&& !svc.contains('\0') ==> b.phase == (PhaseView::Start {
                regtype: vstd::utf8::encode_utf8(regtype).push(0u8),
                domain: vstd::utf8::encode_utf8(domain).push(0u8),
            })
        }),
{
    let (regtype, domain) = crate::text::service_parts(svc);
    let name = crate::text::trim_dots(svc);
    crate::text::law_trimmed_name_is_followed_by_dots(svc);
    crate::text::law_service_parts_rejoin(svc);
    let whole = regtype.push('.') + domain;
    if name.contains('.') {
        assert(whole == name.push('.'));
        if svc.contains('\0') {
            let k = svc.index_of('\0');
            assert(k < name.len());
            assert(whole[k] == '\0');
            if k < regtype.len() {
                assert(regtype[k] == '\0');
            } else {
                assert(domain[k - regtype.len() - 1] == '\0');
            }
        } else {
            assert forall|i: int| 0 <= i < whole.len() implies whole[i] != '\0' by {
                if i < name.len() {
                    assert(svc[i] == whole[i]);
                    assert(svc.contains(svc[i]));
                }
            }
            assert forall|i: int| 0 <= i < regtype.len() implies regtype[i] != '\0' by {
                assert(whole[i] == regtype[i]);
            }
            assert forall|i: int| 0 <= i < domain.len() implies domain[i] != '\0' by {
                assert(whole[regtype.len() + 1 + i] == domain[i]);
            }
        }
    } else {
        reveal_strlit("local.");
        if svc.contains('\0') {
            let k = svc.index_of('\0');
            assert(k < name.len());
            assert(name[k] == '\0');
        } else {
            assert forall|i: int| 0 <= i < name.len() implies name[i] != '\0' by {
                assert(svc[i] == name[i]);
                assert(svc.contains(svc[i]));
            }
        }
    }
}

/// What is to be done in each phase.
pub proof fn law_phase_says_what_is_to_be_done(phase: PhaseView)
    ensures
        match phase {
            PhaseView::Start { regtype, domain } => phase.action() == (ActionView::Browse {
                regtype,
                domain,
            }),
            PhaseView::Polling => phase.action() == (ActionView::Wait {
                operation: Operation::Browse,
                nanos: 100_000_000,
            }),
            PhaseView::Processing => phase.action() == (ActionView::Process {
                operation: Operation::Browse,
            }),
            PhaseView::ResolveStart { request, .. } => phase.action() == (ActionView::Resolve {
                request,
            }),
            PhaseView::ResolvePoll { poll, .. } => match poll {
                Poll::Clock => phase.action() is Clock,
                Poll::Wait { nanos } => phase.action() == (ActionView::Wait {
                    operation: Operation::Resolve,
                    nanos,
                }),
                Poll::Process => phase.action() == (ActionView::Process {
                    operation: Operation::Resolve,
                }),
                Poll::Finished => phase.action() == (ActionView::Release {
                    operation: Operation::Resolve,
                }),
            },
            PhaseView::ResolveClose { .. } => phase.action() == (ActionView::Release {
                operation: Operation::Resolve,
            }),
            PhaseView::AddrStart { host, .. } => phase.action() == (ActionView::GetAddrInfo {
                host,
            }),
            PhaseView::AddrPoll { poll, .. } => match poll {
                Poll::Clock => phase.action() is Clock,
                Poll::Wait { nanos } => phase.action() == (ActionView::Wait {
                    operation: Operation::AddrInfo,
                    nanos,
                }),
                Poll::Process => phase.action() == (ActionView::Process {
                    operation: Operation::AddrInfo,
                }),
                Poll::Finished => phase.action() == (ActionView::Release {
                    operation: Operation::AddrInfo,
                }),
            },
            PhaseView::AddrClose { .. } => phase.action() == (ActionView::Release {
                operation: Operation::AddrInfo,
            }),
            PhaseView::Sending { name, response } => phase.action() == (ActionView::Send {
                name,
                response,
            }),
            PhaseView::Closing => phase.action() == (ActionView::Release {
                operation: Operation::Browse,
            }),
            PhaseView::Stopped => phase.action() is Stop,
        },
{
}

/// An event that is not the outcome of what was to be done changes nothing.
pub proof fn law_only_the_outcome_counts(b: BrowserView, event: EventView)
    requires
        match b.phase.action() {
            ActionView::Browse { .. } => !(event is Started),
            ActionView::Resolve { .. } => !(event is Started),
            ActionView::GetAddrInfo { .. } => !(event is Started),
            ActionView::Clock => !(event is Clock),
            ActionView::Wait { .. } => !(event is Waited),
            ActionView::Process { operation: Operation::Browse } => !(event is Browsed),
            ActionView::Process { operation: Operation::Resolve } => !(event is Resolved),
            ActionView::Process { operation: Operation::AddrInfo } => !(event is Addressed),
            ActionView::Release { .. } => !(event is Released),
            ActionView::Send { .. } => !(event is Sent),
            ActionView::Stop => true,
        },
    ensures
        b.next(event) == b,
{
}

/// The course of the browse: it goes on for good once it has started, until a result cannot be
/// processed or the receiver of a response is gone; then it is released and all is over. Nothing
/// else changes thereby.
pub proof fn law_browse_goes_on_until_it_fails(b: BrowserView, event: EventView)
    requires
        b.wf(),
    ensures
        b.next(event).svc == b.svc,
        b.phase is Start ==> (event matches EventView::Started { err } ==> b.next(event)
            == BrowserView {
            phase: if err == 0 {
                PhaseView::Polling
            } else {
                PhaseView::Stopped
            },
            ..b
        }),
        b.phase is Polling ==> (event matches EventView::Waited { readable } ==> b.next(event)
            == BrowserView {
            phase: if readable {
                PhaseView::Processing
            } else {
                PhaseView::Polling
            },
            ..b
        }),
        b.phase is Processing ==> (event matches EventView::Browsed { err, .. } ==> (b.next(
            event,
        ).phase is Closing <==> err != 0)),
        b.phase is Sending ==> (event matches EventView::Sent { closed } ==> (b.next(
            event,
        ).phase is Closing <==> closed)),
        b.next(event).phase is Closing && !(b.phase is Closing) ==> b.next(event).seen == b.seen && {
            ||| b.phase is Processing && (event matches EventView::Browsed { err, .. } && err != 0)
            ||| b.phase is Sending && event == (EventView::Sent { closed: true })
        },
        b.next(event).phase is Stopped && !(b.phase is Stopped) ==> b.next(event) == (BrowserView {
            phase: PhaseView::Stopped,
            ..b
        }) && {
            ||| b.phase is Start && (event matches EventView::Started { err } && err != 0)
            ||| b.phase is Closing && event is Released
        },
        b.phase is Closing && event is Released ==> b.next(event).phase is Stopped,
{
    lemma_resume(b);
    if let EventView::Browsed { found, .. } = event {
        lemma_resume(BrowserView { pending: b.pending + found, ..b });
    }
}

/// The course of a resolve: it is polled by the clock, in waits of 100 ms or less until two
/// seconds have passed, a reply or an error ends it, and if it found a host without a nul in its
/// name, the address of that host is looked up next. Only the phase changes thereby.
pub proof fn law_resolve_runs_its_course(b: BrowserView, event: EventView)
    ensures
        b.phase matches PhaseView::ResolveStart { name, .. } ==> (event == (EventView::Started {
            err: 0,
        }) ==> b.next(event) == (BrowserView {
            phase: PhaseView::ResolvePoll { name, poll: Poll::Clock },
            ..b
        })),
        b.phase matches PhaseView::ResolvePoll { name, poll } ==> {
            &&& poll is Clock ==> (event matches EventView::Clock { elapsed } ==> b.next(event)
                == BrowserView {
                phase: if elapsed >= 2_000_000_000 {
                    PhaseView::ResolveClose { name, found: None }
                } else if elapsed > 1_900_000_000 {
                    PhaseView::ResolvePoll {
                        name,
                        poll: Poll::Wait { nanos: (2_000_000_000 - elapsed) as u128 },
                    }
                } else {
                    PhaseView::ResolvePoll { name, poll: Poll::Wait { nanos: 100_000_000 } }
                },
                ..b
            })
            &&& poll is Wait ==> (event matches EventView::Waited { readable } ==> b.next(event)
                == BrowserView {
                phase: PhaseView::ResolvePoll {
                    name,
                    poll: if readable {
                        Poll::Process
                    } else {
                        Poll::Clock
                    },
                },
                ..b
            })
            &&& poll is Process ==> (event matches EventView::Resolved { err, found } ==> b.next(
                event,
            ) == BrowserView {
                phase: if err != 0 || found is Some {
                    PhaseView::ResolveClose { name, found }
                } else {
                    PhaseView::ResolvePoll { name, poll: Poll::Clock }
                },
                ..b
            })
        },
        b.phase matches PhaseView::ResolveClose { name, found: Some(resolved) } ==> (event is Released
            && !resolved.host.contains('\0') ==> b.next(event) == (BrowserView {
            phase: PhaseView::AddrStart {
                name,
                resolved,
                host: vstd::utf8::encode_utf8(resolved.host).push(0u8),
            },
            ..b
        })),
{
}

/// The course of an address lookup: it is polled as a resolve is, and if it found an address the
/// response is to be sent, with the full name less the dot it ends in, the address found, and
/// the port and the strings that were resolved. Only the phase changes thereby.
pub proof fn law_address_lookup_runs_its_course(b: BrowserView, event: EventView)
    ensures
        b.phase matches PhaseView::AddrStart { name, resolved, .. } ==> (event
            == (EventView::Started { err: 0 }) ==> b.next(event) == (BrowserView {
            phase: PhaseView::AddrPoll { name, resolved, poll: Poll::Clock },
            ..b
        })),
        b.phase matches PhaseView::AddrPoll { name, resolved, poll } ==> {
            &&& poll is Clock ==> (event matches EventView::Clock { elapsed } ==> b.next(event)
                == BrowserView {
                phase: if elapsed >= 2_000_000_000 {
                    PhaseView::AddrClose { name, resolved, found: None }
                } else if elapsed > 1_900_000_000 {
                    PhaseView::AddrPoll {
                        name,
                        resolved,
                        poll: Poll::Wait { nanos: (2_000_000_000 - elapsed) as u128 },
                    }
                } else {
                    PhaseView::AddrPoll { name, resolved, poll: Poll::Wait { nanos: 100_000_000 } }
                },
                ..b
            })
            &&& poll is Wait ==> (event matches EventView::Waited { readable } ==> b.next(event)
                == BrowserView {
                phase: PhaseView::AddrPoll {
                    name,
                    resolved,
                    poll: if readable {
                        Poll::Process
                    } else {
                        Poll::Clock
                    },
                },
                ..b
            })
            &&& poll is Process ==> (event matches EventView::Addressed { err, found } ==> b.next(
                event,
            ) == BrowserView {
                phase: if err != 0 || found is Some {
                    PhaseView::AddrClose { name, resolved, found }
                } else {
                    PhaseView::AddrPoll { name, resolved, poll: Poll::Clock }
                },
                ..b
            })
        },
        b.phase matches PhaseView::AddrClose { name, resolved, found: Some(ip) } ==> (event is Released
            ==> {
            let fullname = resolved.fullname;
            let shown = if fullname.len() > 0 && fullname.last() == '.' {
                fullname.drop_last()
            } else {
                fullname
            };
            b.next(event) == BrowserView {
                phase: PhaseView::Sending {
                    name,
                    response: crate::macos::built_response(
                        b.svc,
                        shown,
                        ip,
                        resolved.port,
                        resolved.txt,
                    ),
                },
                ..b
            }
        }),
{
}

/// The discovery that goes on with the instances after the first pending one, if that one is
/// passed over.
spec fn after_first(b: BrowserView) -> BrowserView
    recommends
        b.pending.len() > 0,
{
    BrowserView {
        seen: if b.seen.contains(b.pending[0].name) {
            b.seen
        } else {
            b.seen.push(b.pending[0].name)
        },
        pending: b.pending.drop_first(),
        ..b
    }
}

/// How one pending instance is gone through: it is taken up, or the others are gone through.
proof fn lemma_resume_first(b: BrowserView)
    requires
        b.pending.len() > 0,
    ensures
        ({
            let first = b.pending[0];
            let c = after_first(b);
            if !b.seen.contains(first.name) && resolve_request(first) is Some {
                b.resume() == c.at(
                    PhaseView::ResolveStart {
                        name: first.name,
                        request: resolve_request(first)->0,
                    },
                )
            } else {
                b.resume() == c.resume()
            }
        }),
        forall|x: Seq<char>| #[trigger]
            after_first(b).seen.contains(x) <==> b.seen.contains(x) || x == b.pending[0].name,
{
    let name = b.pending[0].name;
    let c = after_first(b);
    if !b.seen.contains(name) {
        assert forall|x: Seq<char>| b.seen.contains(x) || x == name implies #[trigger] c.seen.contains(
            x,
        ) by {
            if b.seen.contains(x) {
                assert(c.seen[b.seen.index_of(x)] == x);
            } else {
                assert(c.seen[b.seen.len() as int] == x);
            }
        }
    }
}

/// What a discovery that resumes takes up is one of the pending instances, and those after it
/// stay pending.
proof fn lemma_resume_taken(b: BrowserView)
    ensures
        ({
            let next = b.resume();
            let n = b.pending.len() - next.pending.len();
            &&& next.svc == b.svc && 0 <= n <= b.pending.len() && next.pending == b.pending.skip(n)
            &&& next.phase is Polling || next.phase is ResolveStart
            &&& next.phase is Polling ==> n == b.pending.len()
            &&& next.phase matches PhaseView::ResolveStart { name, request } ==> {
                &&& n >= 1 && name == b.pending[n - 1].name && !b.seen.contains(name)
                &&& resolve_request(b.pending[n - 1]) == Some(request)
            }
        }),
    decreases b.pending.len(),
{
    let next = b.resume();
    let n = b.pending.len() - next.pending.len();
    if b.pending.len() == 0 {
        assert(next.pending =~= b.pending.skip(0));
    } else {
        lemma_resume_first(b);
        let c = after_first(b);
        if b.seen.contains(b.pending[0].name) || resolve_request(b.pending[0]) is None {
            lemma_resume_taken(c);
            assert(c.pending.skip(n - 1) =~= b.pending.skip(n));
        } else {
            assert(next.pending =~= b.pending.skip(1));
        }
    }
}

/// What a discovery that resumes passes over had been seen, or one of its name before it cannot
/// be resolved; it does not have the name of what is taken up.
proof fn lemma_resume_passed(b: BrowserView, i: int)
    requires
        0 <= i < b.pending.len() - b.resume().pending.len(),
        b.resume().phase is ResolveStart ==> i < b.pending.len() - b.resume().pending.len() - 1,
    ensures
        b.seen.contains(b.pending[i].name) || exists|j: int|
            0 <= j <= i && (#[trigger] b.pending[j]).name == b.pending[i].name && resolve_request(
                b.pending[j],
            ) is None,
        b.resume().phase matches PhaseView::ResolveStart { name, .. } ==> b.pending[i].name != name,
    decreases b.pending.len(),
{
    lemma_resume_first(b);
    lemma_resume_taken(b);
    let c = after_first(b);
    let first = b.pending[0];
    if !b.seen.contains(first.name) && resolve_request(first) is Some {
        assert(b.resume().pending == c.pending);
    } else {
        lemma_resume_taken(c);
        if i == 0 {
            assert(c.seen.contains(first.name));
        } else {
            lemma_resume_passed(c, i - 1);
            assert(c.pending[i - 1] == b.pending[i]);
            if !b.seen.contains(b.pending[i].name) {
                if c.seen.contains(b.pending[i].name) {
                    assert(b.pending[0].name == b.pending[i].name);
                } else {
                    let j = choose|j: int|
                        0 <= j <= i - 1 && (#[trigger] c.pending[j]).name == c.pending[i - 1].name
                            && resolve_request(c.pending[j]) is None;
                    assert(b.pending[j + 1] == c.pending[j]);
                }
            }
        }
    }
}

/// Seen by a discovery that resumed are those seen before and those gone through.
proof fn lemma_resume_seen(b: BrowserView, x: Seq<char>)
    ensures
        b.resume().seen.contains(x) <==> b.seen.contains(x) || exists|i: int|
            0 <= i < b.pending.len() - b.resume().pending.len() && (#[trigger] b.pending[i]).name
                == x,
    decreases b.pending.len(),
{
    lemma_resume_taken(b);
    let n = b.pending.len() - b.resume().pending.len();
    if b.pending.len() > 0 {
        lemma_resume_first(b);
        let c = after_first(b);
        let first = b.pending[0];
        assert(c.seen.contains(x) <==> b.seen.contains(x) || x == first.name);
        if !b.seen.contains(first.name) && resolve_request(first) is Some {
            assert(n == 1);
        } else {
            lemma_resume_seen(c, x);
            lemma_resume_taken(c);
            if exists|i: int| 0 <= i < n - 1 && (#[trigger] c.pending[i]).name == x {
                let k = choose|i: int| 0 <= i < n - 1 && (#[trigger] c.pending[i]).name == x;
                assert(b.pending[k + 1] == c.pending[k]);
            }
            if exists|i: int| 0 <= i < n && (#[trigger] b.pending[i]).name == x {
                let k = choose|i: int| 0 <= i < n && (#[trigger] b.pending[i]).name == x;
                if k > 0 {
                    assert(c.pending[k - 1] == b.pending[k]);
                }
            }
        }
    }
}

/// When one lookup is over, or a result of the browse was processed, the next instance is taken
/// up: the first of those pending, with those just found at their end, that was not seen before
/// and has no nul in its texts is resolved next, asked for by its own texts. All before it had
/// been seen, or have a nul, or have the name of one before that has. Without such an instance
/// none is left pending and the browse is waited for. Seen are then those seen before and all
/// that were gone through; the others stay pending in their order.
pub proof fn law_next_instance_is_taken_up(
    b: BrowserView,
    event: EventView,
    queue: Seq<InstanceView>,
)
    requires
        b.wf(),
        queue == match event {
            EventView::Browsed { found, .. } => b.pending + found,
            _ => b.pending,
        },
        match b.phase {
            PhaseView::Processing => event matches EventView::Browsed { err, .. } && err == 0,
            PhaseView::ResolveStart { .. } => event matches EventView::Started { err } && err != 0,
            PhaseView::ResolveClose { found: None, .. } => event is Released,
            PhaseView::ResolveClose { found: Some(resolved), .. } => event is Released
                && resolved.host.contains('\0'),
            PhaseView::AddrStart { .. } => event matches EventView::Started { err } && err != 0,
            PhaseView::AddrClose { found: None, .. } => event is Released,
            PhaseView::Sending { .. } => event == (EventView::Sent { closed: false }),
            _ => false,
        },
    ensures
        ({
            let next = b.next(event);
            let n = queue.len() - next.pending.len();
            &&& next.svc == b.svc
            &&& 0 <= n <= queue.len() && next.pending == queue.skip(n)
            &&& next.phase is Polling || next.phase is ResolveStart
            &&& next.phase is Polling ==> n == queue.len()
            &&& next.phase matches PhaseView::ResolveStart { name, request } ==> {
                let taken = queue[n - 1];
                &&& n >= 1 && name == taken.name && !b.seen.contains(name)
                &&& forall|i: int| 0 <= i < n - 1 ==> (#[trigger] queue[i]).name != name
                &&& !taken.name.contains('\0') && !taken.regtype.contains('\0')
                    && !taken.domain.contains('\0')
                &&& request.name == vstd::utf8::encode_utf8(taken.name).push(0u8)
                &&& request.regtype == vstd::utf8::encode_utf8(taken.regtype).push(0u8)
                &&& request.domain == vstd::utf8::encode_utf8(taken.domain).push(0u8)
            }
            &&& forall|i: int|
                0 <= i < n && !(next.phase is ResolveStart && i == n - 1) ==> {
                    ||| b.seen.contains((#[trigger] queue[i]).name)
                    ||| exists|j: int|
                        0 <= j <= i && (#[trigger] queue[j]).name == queue[i].name && (
                        queue[j].name.contains('\0') || queue[j].regtype.contains('\0')
                            || queue[j].domain.contains('\0'))
                }
            &&& b.seen.is_prefix_of(next.seen) && next.seen.no_duplicates()
            &&& forall|x: Seq<char>| #[trigger]
                next.seen.contains(x) <==> b.seen.contains(x) || exists|i: int|
                    0 <= i < n && (#[trigger] queue[i]).name == x
        }),
{
    let more = BrowserView { pending: queue, ..b };
    let next = b.next(event);
    assert(next == more.resume()) by {
        if let PhaseView::ResolveClose { found: Some(resolved), .. } = b.phase {
            crate::text::law_c_string_is_without_nul(resolved.host, resolved.host);
        }
    }
    lemma_resume(more);
    lemma_resume_taken(more);
    let n = queue.len() - next.pending.len();
    assert forall|i: int| 0 <= i < n && !(next.phase is ResolveStart && i == n - 1) implies {
        ||| b.seen.contains((#[trigger] queue[i]).name)
        ||| exists|j: int|
            0 <= j <= i && (#[trigger] queue[j]).name == queue[i].name && (queue[j].name.contains(
                '\0',
            ) || queue[j].regtype.contains('\0') || queue[j].domain.contains('\0'))
    } by {
        lemma_resume_passed(more, i);
        if !b.seen.contains(queue[i].name) {
            let j = choose|j: int|
                0 <= j <= i && (#[trigger] queue[j]).name == queue[i].name && resolve_request(
                    queue[j],
                ) is None;
            law_resolve_is_asked_for_by_c_strings(queue[j]);
        }
    }
    if let PhaseView::ResolveStart { name, .. } = next.phase {
        law_resolve_is_asked_for_by_c_strings(queue[n - 1]);
        assert forall|i: int| 0 <= i < n - 1 implies (#[trigger] queue[i]).name != name by {
            lemma_resume_passed(more, i);
        }
    }
    assert forall|x: Seq<char>| #[trigger]
        next.seen.contains(x) <==> b.seen.contains(x) || exists|i: int|
            0 <= i < n && (#[trigger] queue[i]).name == x by {
        lemma_resume_seen(more, x);
    }
}

/// A name comes to be seen only if the instance of that name is resolved next, or because an
/// instance of that name has a nul in its texts. So no instance that can be resolved is passed
/// over.
pub proof fn law_seen_instance_is_resolved(
    b: BrowserView,
    event: EventView,
    queue: Seq<InstanceView>,
    name: Seq<char>,
)
    requires
        b.wf(),
        queue == match event {
            EventView::Browsed { found, .. } => b.pending + found,
            _ => b.pending,
        },
        !b.seen.contains(name),
        b.next(event).seen.contains(name),
    ensures
        ({
            ||| exists|i: int|
                0 <= i < queue.len() && (#[trigger] queue[i]).name == name && b.next(
                    event,
                ).phase.action() == (ActionView::Resolve {
                    request: ResolveRequestView {
                        name: vstd::utf8::encode_utf8(name).push(0u8),
                        regtype: vstd::utf8::encode_utf8(queue[i].regtype).push(0u8),
                        domain: vstd::utf8::encode_utf8(queue[i].domain).push(0u8),
                    },
                })
            ||| exists|i: int|
                0 <= i < queue.len() && (#[trigger] queue[i]).name == name && (queue[i].name.contains(
                    '\0',
                ) || queue[i].regtype.contains('\0') || queue[i].domain.contains('\0'))
        }),
{
    let next = b.next(event);
    law_next_instance_is_taken_up(b, event, queue);
    let n = queue.len() - next.pending.len();
    let k = choose|i: int| 0 <= i < n && (#[trigger] queue[i]).name == name;
    if !(next.phase is ResolveStart && k == n - 1) {
        let j = choose|j: int|
            0 <= j <= k && (#[trigger] queue[j]).name == queue[k].name && (queue[j].name.contains(
                '\0',
            ) || queue[j].regtype.contains('\0') || queue[j].domain.contains('\0'));
        assert(queue[j].name == name);
    }
}

/// Along a run, an instance that is pending was reported before.
proof fn lemma_run_pending(
    svc: Seq<char>,
    states: Seq<BrowserView>,
    events: Seq<EventView>,
    j: int,
    p: int,
)
    requires
        is_run(svc, states, events),
        0 <= j < states.len(),
        0 <= p < states[j].pending.len(),
    ensures
        exists|k: int, i: int|
            0 <= k < j && events[k] is Browsed && 0 <= i < events[k]->Browsed_found.len()
                && #[trigger] events[k]->Browsed_found[i] == states[j].pending[p],
    decreases j,
{
    if j > 0 {
        let b = states[j - 1];
        let event = events[j - 1];
        let next = states[j];
        assert(next == b.next(event));
        let queue = match event {
            EventView::Browsed { found, .. } => b.pending + found,
            _ => b.pending,
        };
        let more = BrowserView { pending: queue, ..b };
        lemma_resume_taken(more);
        let n = if next == more.resume() {
            queue.len() - next.pending.len()
        } else {
            0
        };
        assert(next.pending[p] == queue[n + p]);
        if n + p < b.pending.len() {
            lemma_run_pending(svc, states, events, j - 1, n + p);
        } else {
            assert(events[j - 1]->Browsed_found[n + p - b.pending.len()] == next.pending[p]);
        }
    }
}

/// Along a run, an instance that was seen was resolved, if nothing of its name has a nul.
proof fn lemma_run_resolved(
    svc: Seq<char>,
    states: Seq<BrowserView>,
    events: Seq<EventView>,
    j: int,
    name: Seq<char>,
)
    requires
        is_run(svc, states, events),
        0 <= j < states.len(),
        states[j].seen.contains(name),
        forall|m: int, p: int|
            0 <= m < j && events[m] is Browsed && 0 <= p < events[m]->Browsed_found.len()
                && (#[trigger] events[m]->Browsed_found[p]).name == name
                ==> !events[m]->Browsed_found[p].name.contains('\0')
                && !events[m]->Browsed_found[p].regtype.contains('\0')
                && !events[m]->Browsed_found[p].domain.contains('\0'),
    ensures
        exists|m: int|
            0 <= m <= j && (#[trigger] states[m]).phase.action() is Resolve
                && states[m].phase.action()->Resolve_request.name == vstd::utf8::encode_utf8(
                name,
            ).push(0u8),
    decreases j,
{
    if j > 0 {
        let b = states[j - 1];
        let event = events[j - 1];
        if b.seen.contains(name) {
            lemma_run_resolved(svc, states, events, j - 1, name);
        } else {
            let queue = match event {
                EventView::Browsed { found, .. } => b.pending + found,
                _ => b.pending,
            };
            lemma_run(svc, states, events, j - 1, j - 1);
            law_seen_instance_is_resolved(b, event, queue, name);
            if exists|i: int|
                0 <= i < queue.len() && (#[trigger] queue[i]).name == name && (
                queue[i].name.contains('\0') || queue[i].regtype.contains('\0')
                    || queue[i].domain.contains('\0')) {
                let i = choose|i: int|
                    0 <= i < queue.len() && (#[trigger] queue[i]).name == name && (
                    queue[i].name.contains('\0') || queue[i].regtype.contains('\0')
                        || queue[i].domain.contains('\0'));
                if i < b.pending.len() {
                    lemma_run_pending(svc, states, events, j - 1, i);
                } else {
                    assert(events[j - 1]->Browsed_found[i - b.pending.len()] == queue[i]);
                }
                assert(false);
            }
            assert(states[j].phase.action() is Resolve);
        }
    }
}

/// Along a run, an instance that was reported is known from then on.
proof fn lemma_run_knows(
    svc: Seq<char>,
    states: Seq<BrowserView>,
    events: Seq<EventView>,
    k: int,
    j: int,
    name: Seq<char>,
)
    requires
        is_run(svc, states, events),
        0 <= k < j < states.len(),
        states[k].phase is Processing,
        events[k] matches EventView::Browsed { err, found } && err == 0 && exists|i: int|
            0 <= i < found.len() && (#[trigger] found[i]).name == name,
    ensures
        states[j].knows(name),
    decreases j,
{
    lemma_run(svc, states, events, j - 1, j - 1);
    if k < j - 1 {
        lemma_run_knows(svc, states, events, k, j - 1, name);
    }
    law_no_instance_is_lost(states[j - 1], events[j - 1], name);
}

/// Every instance that the browse reports comes to be resolved: by the time the browse is waited
/// for again, the resolve of an instance of that name has been asked for, if none that was
/// reported under that name has a nul in its texts.
pub proof fn law_reported_instance_is_resolved(
    svc: Seq<char>,
    states: Seq<BrowserView>,
    events: Seq<EventView>,
    k: int,
    j: int,
    name: Seq<char>,
)
    requires
        is_run(svc, states, events),
        0 <= k < j < states.len(),
        states[k].phase is Processing,
        events[k] matches EventView::Browsed { err, found } && err == 0 && exists|i: int|
            0 <= i < found.len() && (#[trigger] found[i]).name == name,
        states[j].phase is Polling,
        forall|m: int, p: int|
            0 <= m < j && events[m] is Browsed && 0 <= p < events[m]->Browsed_found.len()
                && (#[trigger] events[m]->Browsed_found[p]).name == name
                ==> !events[m]->Browsed_found[p].name.contains('\0')
                && !events[m]->Browsed_found[p].regtype.contains('\0')
                && !events[m]->Browsed_found[p].domain.contains('\0'),
    ensures
        exists|m: int|
            0 <= m <= j && (#[trigger] states[m]).phase.action() is Resolve
                && states[m].phase.action()->Resolve_request.name == vstd::utf8::encode_utf8(
                name,
            ).push(0u8),
{
    lemma_run_knows(svc, states, events, k, j, name);
    lemma_run(svc, states, events, j, j);
    law_no_instance_is_lost(states[j], EventView::Released, name);
    lemma_run_resolved(svc, states, events, j, name);
}

} // verus!
