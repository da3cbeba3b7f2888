//! What DNS-SD replies with: service instances, where they are served, and their addresses.
use crate::net::Ipv4Addr;
use crate::poll::NO_ERR;
use crate::text::{cstr, parse_txt};
use vstd::prelude::*;

verus! {

/// The interface index that stands for all interfaces.
pub const IF_ANY: u32 = 0;

/// Asks an address lookup for IPv4 addresses only.
pub const PROTO_V4: u32 = 0x01;

/// Set in the flags of a browse reply if a service instance is added, not removed.
pub const FLAGS_ADD: u32 = 0x2;

/// The address family of IPv4 in a `sockaddr`.
pub const AF_INET: u8 = 2;

/// A service instance that a browse found.
#[derive(Clone, Debug, PartialEq, Eq)]
pub struct Instance {
    /// The instance name, e.g. `myrobot`.
    pub name: String,
    /// The registration type, e.g. `_rpc._tcp.`.
    pub regtype: String,
    /// The domain, e.g. `local.`.
    pub domain: String,
}

/// The view of an [`Instance`].
#[verifier::ext_equal]
pub struct InstanceView {
    pub name: Seq<char>,
    pub regtype: Seq<char>,
    pub domain: Seq<char>,
}

impl View for Instance {
    type V = InstanceView;

    open spec fn view(&self) -> InstanceView {
        InstanceView { name: self.name@, regtype: self.regtype@, domain: self.domain@ }
    }
}

/// The views of a list of instances.
pub open spec fn instances(list: Seq<Instance>) -> Seq<InstanceView> {
    list.map_values(|instance: Instance| instance@)
}

/// Where a service instance is served.
#[derive(Clone, Debug, PartialEq, Eq)]
pub struct Resolved {
    /// The fully-qualified name of the instance, e.g. `myrobot._rpc._tcp.local.`.
    pub fullname: String,
    /// The host that serves it, e.g. `myrobot.local.`.
    pub host: String,
    /// The port of the service.
    pub port: u16,
    /// The strings of its TXT record, e.g. `["grpc=true"]`.
    pub txt: Vec<String>,
}

/// The view of a [`Resolved`].
#[verifier::ext_equal]
pub struct ResolvedView {
    pub fullname: Seq<char>,
    pub host: Seq<char>,
    pub port: u16,
    pub txt: Seq<Seq<char>>,
}

impl View for Resolved {
    type V = ResolvedView;

    open spec fn view(&self) -> ResolvedView {
        ResolvedView {
            fullname: self.fullname@,
            host: self.host@,
            port: self.port,
            txt: self.txt.deep_view(),
        }
    }
}

/// Whether a browse reply with these flags and this error code adds an instance.
pub open spec fn adds_instance(flags: u32, err: i32) -> bool {
    err == NO_ERR && flags & FLAGS_ADD != 0
}

/// Appends the instance that a browse reply is about, if the reply adds it.
pub fn add_instance(found: &mut Vec<Instance>, flags: u32, err: i32, instance: Instance)
    ensures
        final(found)@ == if err == 0 && flags / 2 % 2 == 1 {
            old(found)@.push(instance)
        } else {
            old(found)@
        },
        final(found)@ == if adds_instance(flags, err) {
            old(found)@.push(instance)
        } else {
            old(found)@
        },
{
    proof {
        law_instance_is_added_by_its_flag(flags, err);
    }
    if err != NO_ERR || flags & FLAGS_ADD == 0 {
        return;
    }
    found.push(instance);
}

/// Handles a browse reply, whose texts come as the bytes of C strings: appends an instance
/// that is added to `found`. Removals and errors are ignored.
pub fn on_browse(
    found: &mut Vec<Instance>,
    flags: u32,
    err: i32,
    name: &[u8],
    regtype: &[u8],
    domain: &[u8],
)
    ensures
        instances(final(found)@) == if adds_instance(flags, err) {
            instances(old(found)@).push(
                InstanceView {
                    name: crate::text::utf8_lossy(name@),
                    regtype: crate::text::utf8_lossy(regtype@),
                    domain: crate::text::utf8_lossy(domain@),
                },
            )
        } else {
            instances(old(found)@)
        },
        final(found)@.take(old(found)@.len() as int) == old(found)@,
        !(err == 0 && flags / 2 % 2 == 1) ==> final(found)@ == old(found)@,
        err == 0 && flags / 2 % 2 == 1 ==> {
            let added = final(found)@.last();
            &&& final(found)@.len() == old(found)@.len() + 1
            &&& added.name@ == crate::text::utf8_lossy(name@)
            &&& added.regtype@ == crate::text::utf8_lossy(regtype@)
            &&& added.domain@ == crate::text::utf8_lossy(domain@)
            &&& vstd::utf8::valid_utf8(name@) ==> added.name@ == vstd::utf8::decode_utf8(name@)
            &&& vstd::utf8::valid_utf8(regtype@) ==> added.regtype@ == vstd::utf8::decode_utf8(
                regtype@,
            )
            &&& vstd::utf8::valid_utf8(domain@) ==> added.domain@ == vstd::utf8::decode_utf8(
                domain@,
            )
        },
{
    proof {
        law_instance_is_added_by_its_flag(flags, err);
    }
    let instance = Instance { name: cstr(name), regtype: cstr(regtype), domain: cstr(domain) };
    add_instance(found, flags, err, instance);
    assert(instances(old(found)@.push(instance)) =~= instances(old(found)@).push(instance@));
}

/// Records `value` in `slot`, unless the reply it came with is an error or an earlier reply
/// has filled the slot.
pub fn keep_first<T>(slot: &mut Option<T>, err: i32, value: T)
    ensures
        *final(slot) == if err == NO_ERR && *old(slot) is None {
            Some(value)
        } else {
            *old(slot)
        },
        err == 0 && *old(slot) is None ==> *final(slot) == Some(value),
        err != 0 || *old(slot) is Some ==> *final(slot) == *old(slot),
{
    if err == NO_ERR && slot.is_none() {
        *slot = Some(value);
    }
}

/// The number that two bytes in network order stand for.
pub open spec fn network_u16(bytes: Seq<u8>) -> u16 {
    (bytes[0] * 256 + bytes[1]) as u16
}

/// The port that two bytes in network order stand for.
pub fn port_from_network(bytes: [u8; 2]) -> (port: u16)
    ensures
        port == bytes@[0] * 256 + bytes@[1],
{
    bytes[0] as u16 * 256 + bytes[1] as u16
}

/// The view of what may be recorded in a slot.
pub open spec fn resolved_slot(slot: Option<Resolved>) -> Option<ResolvedView> {
    match slot {
        Some(resolved) => Some(resolved@),
        None => None,
    }
}

/// Handles a resolve reply: records in `slot` where the instance is served. The texts come as
/// the bytes of C strings, the port in network byte order and the TXT data in wire format.
/// Only the first reply that is no error is recorded.
pub fn on_resolve(
    slot: &mut Option<Resolved>,
    err: i32,
    fullname: &[u8],
    host: &[u8],
    port: [u8; 2],
    txt: &[u8],
)
    ensures
        resolved_slot(*final(slot)) == if err == NO_ERR && *old(slot) is None {
            Some(
                ResolvedView {
                    fullname: crate::text::utf8_lossy(fullname@),
                    host: crate::text::utf8_lossy(host@),
                    port: network_u16(port@),
                    txt: crate::text::txt_strings(txt@),
                },
            )
        } else {
            resolved_slot(*old(slot))
        },
        err != 0 || *old(slot) is Some ==> *final(slot) == *old(slot),
        err == 0 && *old(slot) is None ==> {
            let resolved = final(slot)->0;
            let parts = crate::text::txt_parts(txt@);
            &&& *final(slot) is Some
            &&& resolved.fullname@ == crate::text::utf8_lossy(fullname@)
            &&& resolved.host@ == crate::text::utf8_lossy(host@)
            &&& resolved.port as int == port@[0] * 256 + port@[1]
            &&& resolved.txt@.len() == parts.len()
            &&& forall|i: int|
                #![trigger resolved.txt@[i]]
                0 <= i < parts.len() ==> resolved.txt@[i]@ == crate::text::utf8_lossy(parts[i])
            &&& vstd::utf8::valid_utf8(fullname@) ==> resolved.fullname@
                == vstd::utf8::decode_utf8(fullname@)
            &&& vstd::utf8::valid_utf8(host@) ==> resolved.host@ == vstd::utf8::decode_utf8(host@)
            &&& forall|i: int|
                #![trigger resolved.txt@[i]]
                0 <= i < resolved.txt@.len() && vstd::utf8::valid_utf8(parts[i])
                    ==> resolved.txt@[i]@ == vstd::utf8::decode_utf8(parts[i])
        },
{
    let resolved = Resolved {
        fullname: cstr(fullname),
        host: cstr(host),
        port: port_from_network(port),
        txt: parse_txt(txt),
    };
    keep_first(slot, err, resolved);
}

/// The IPv4 address in a `sockaddr`, unless it is of another family or unspecified.
pub open spec fn sockaddr_ipv4(bytes: Seq<u8>) -> Option<Ipv4Addr> {
    let ip = Ipv4Addr { a: bytes[4], b: bytes[5], c: bytes[6], d: bytes[7] };
    if bytes[1] == AF_INET && ip != (Ipv4Addr { a: 0, b: 0, c: 0, d: 0 }) {
        Some(ip)
    } else {
        None
    }
}

/// Handles an address reply: records in `slot` the IPv4 address of the `sockaddr` it brings,
/// whose family is byte 1 and whose address is bytes 4 to 7. Only the first address that is
/// not unspecified is recorded.
pub fn on_addr(slot: &mut Option<Ipv4Addr>, err: i32, addr: Option<[u8; 128]>)
    ensures
        *final(slot) == match addr {
            Some(bytes) if err == NO_ERR && *old(slot) is None => sockaddr_ipv4(bytes@),
            _ => *old(slot),
        },
        err != 0 || addr is None || *old(slot) is Some ==> *final(slot) == *old(slot),
        err == 0 && *old(slot) is None ==> (addr matches Some(bytes) ==> match *final(slot) {
            Some(ip) => {
                &&& bytes@[1] == 2
                &&& ip.a == bytes@[4] && ip.b == bytes@[5] && ip.c == bytes@[6] && ip.d == bytes@[7]
                &&& ip.a != 0 || ip.b != 0 || ip.c != 0 || ip.d != 0
            },
            None => {
                ||| bytes@[1] != 2
                ||| bytes@[4] == 0 && bytes@[5] == 0 && bytes@[6] == 0 && bytes@[7] == 0
            },
        }),
{
    if let Some(bytes) = addr {
        let ip = Ipv4Addr::new(bytes[4], bytes[5], bytes[6], bytes[7]);
        if bytes[1] == AF_INET && !ip.is_unspecified() {
            keep_first(slot, err, ip);
        }
    }
}

/// A browse reply adds an instance exactly if it is no error and the second bit of its flags is
/// set, whatever the other bits are.
pub proof fn law_instance_is_added_by_its_flag(flags: u32, err: i32)
    ensures
        adds_instance(flags, err) <==> err == 0 && flags / 2 % 2 == 1,
{
    assert((flags & 2u32 != 0) <==> flags / 2 % 2 == 1) by (bit_vector);
}

/// Every port is what its two bytes in network order, the higher one first, stand for.
pub proof fn law_port_is_read_from_network_order(port: u16)
    ensures
        network_u16(seq![(port / 256) as u8, (port % 256) as u8]) == port,
        forall|bytes: Seq<u8>|
            bytes.len() == 2 ==> #[trigger] network_u16(bytes) as int == bytes[0] * 256 + bytes[1],
{
}

/// An IPv4 address is read from a `sockaddr` exactly if its family is that of IPv4 and the
/// address is not all zeros, and then it is the fifth to eighth byte.
pub proof fn law_sockaddr_holds_family_and_address(bytes: Seq<u8>)
    ensures
        sockaddr_ipv4(bytes) is Some <==> bytes[1] == 2 && (bytes[4] != 0 || bytes[5] != 0
            || bytes[6] != 0 || bytes[7] != 0),
        sockaddr_ipv4(bytes) matches Some(ip) ==> ip.a == bytes[4] && ip.b == bytes[5] && ip.c
            == bytes[6] && ip.d == bytes[7],
{
}

/// The views of instances and of where they are served show all their texts, the list of
/// instances in its order.
pub proof fn law_views_show_every_text(list: Seq<Instance>, i: int, resolved: Resolved, j: int)
    ensures
        instances(list).len() == list.len(),
        0 <= i < list.len() ==> {
            let view = instances(list)[i];
            &&& view == list[i]@
            &&& view.name == list[i].name@
            &&& view.regtype == list[i].regtype@
            &&& view.domain == list[i].domain@
        },
        resolved@.fullname == resolved.fullname@,
        resolved@.host == resolved.host@,
        resolved@.port == resolved.port,
        resolved@.txt.len() == resolved.txt@.len(),
        0 <= j < resolved.txt@.len() ==> resolved@.txt[j] == resolved.txt@[j]@,
        resolved_slot(Some(resolved)) == Some(resolved@),
        resolved_slot(None) is None,
{
}

} // verus!
