//! DNS responses and the records in them.
use crate::net::Ipv4Addr;
use vstd::prelude::*;

verus! {

/// The class of a DNS record.
#[derive(Clone, Copy, Debug, PartialEq, Eq, Structural)]
pub enum Class {
    /// The Internet.
    IN,
    /// CSNET.
    CS,
    /// CHAOS.
    CH,
    /// Hesiod.
    HS,
}

/// What a DNS record says.
#[derive(Clone, Debug, PartialEq, Eq)]
pub enum RecordKind {
    /// The IPv4 address of a host.
    A(Ipv4Addr),
    /// The name of a service instance.
    PTR(String),
    /// Where a service instance is served.
    SRV { priority: u16, weight: u16, port: u16, target: String },
    /// The strings that describe a service instance.
    TXT(Vec<String>),
    /// The data of a record of any other type.
    Unimplemented(Vec<u8>),
}

/// A DNS record.
#[derive(Clone, Debug, PartialEq, Eq)]
pub struct Record {
    pub name: String,
    pub class: Class,
    pub ttl: u32,
    pub kind: RecordKind,
}

/// A DNS response.
#[derive(Clone, Debug, PartialEq, Eq)]
pub struct Response {
    pub answers: Vec<Record>,
    pub nameservers: Vec<Record>,
    pub additional: Vec<Record>,
}

/// The view of a [`RecordKind`].
pub enum RecordKindView {
    A(Ipv4Addr),
    PTR(Seq<char>),
    SRV { priority: u16, weight: u16, port: u16, target: Seq<char> },
    TXT(Seq<Seq<char>>),
    Unimplemented(Seq<u8>),
}

/// The view of a [`Record`].
pub struct RecordView {
    pub name: Seq<char>,
    pub class: Class,
    pub ttl: u32,
    pub kind: RecordKindView,
}

/// The view of a [`Response`].
#[verifier::ext_equal]
pub struct ResponseView {
    pub answers: Seq<RecordView>,
    pub nameservers: Seq<RecordView>,
    pub additional: Seq<RecordView>,
}

impl View for RecordKind {
    type V = RecordKindView;

    open spec fn view(&self) -> RecordKindView {
        match self {
            RecordKind::A(ip) => RecordKindView::A(*ip),
            RecordKind::PTR(host) => RecordKindView::PTR(host@),
            RecordKind::SRV { priority, weight, port, target } => RecordKindView::SRV {
                priority: *priority,
                weight: *weight,
                port: *port,
                target: target@,
            },
            RecordKind::TXT(strings) => RecordKindView::TXT(strings.deep_view()),
            RecordKind::Unimplemented(data) => RecordKindView::Unimplemented(data@),
        }
    }
}

impl View for Record {
    type V = RecordView;

    open spec fn view(&self) -> RecordView {
        RecordView { name: self.name@, class: self.class, ttl: self.ttl, kind: self.kind@ }
    }
}

/// The views of the records in a section of a response.
pub open spec fn section(records: Seq<Record>) -> Seq<RecordView> {
    records.map_values(|record: Record| record@)
}

impl View for Response {
    type V = ResponseView;

    open spec fn view(&self) -> ResponseView {
        ResponseView {
            answers: section(self.answers@),
            nameservers: section(self.nameservers@),
            additional: section(self.additional@),
        }
    }
}

impl ResponseView {
    /// All records, those of the answers first and the additional ones last.
    pub open spec fn records(self) -> Seq<RecordView> {
        self.answers + self.nameservers + self.additional
    }

    /// Whether some answer is about `name`.
    pub open spec fn answers_for(self, name: Seq<char>) -> bool {
        exists|i: int| 0 <= i < self.answers.len() && (#[trigger] self.answers[i]).name == name
    }

    /// The name that the first PTR record gives.
    pub open spec fn hostname(self) -> Option<Seq<char>> {
        first_ptr(self.records())
    }
}

/// The name that the first PTR record among `records` gives.
pub open spec fn first_ptr(records: Seq<RecordView>) -> Option<Seq<char>>
    decreases records.len(),
{
    if records.len() == 0 {
        None
    } else {
        match records[0].kind {
            RecordKindView::PTR(host) => Some(host),
            _ => first_ptr(records.drop_first()),
        }
    }
}

impl Response {
    /// Whether there is no record in the response.
    pub fn is_empty(&self) -> (empty: bool)
        ensures
            empty == (self@.records().len() == 0),
            empty == (self.answers@.len() == 0 && self.nameservers@.len() == 0
                && self.additional@.len() == 0),
    {
        self.answers.is_empty() && self.nameservers.is_empty() && self.additional.is_empty()
    }

    /// Whether some answer is about `name`.
    pub fn answers_for(&self, name: &String) -> (found: bool)
        ensures
            found == self@.answers_for(name@),
            found == exists|i: int|
                0 <= i < self.answers@.len() && (#[trigger] self.answers@[i]).name@ == name@,
    {
        let mut i: usize = 0;
        while i < self.answers.len()
            invariant
                i <= self.answers@.len(),
                forall|j: int| 0 <= j < i ==> (#[trigger] self@.answers[j]).name != name@,
                forall|j: int| 0 <= j < i ==> (#[trigger] self.answers@[j]).name@ != name@,
            decreases self.answers@.len() - i,
        {
            assert(self@.answers[i as int] == self.answers@[i as int]@);
            if self.answers[i].name == *name {
                return true;
            }
            i += 1;
        }
        false
    }
}

/// The view of a record shows all of it.
pub open spec fn shows(view: RecordView, record: Record) -> bool {
    &&& view.name == record.name@
    &&& view.class == record.class
    &&& view.ttl == record.ttl
    &&& match record.kind {
        RecordKind::A(ip) => view.kind == RecordKindView::A(ip),
        RecordKind::PTR(host) => view.kind == RecordKindView::PTR(host@),
        RecordKind::SRV { priority, weight, port, target } => view.kind == RecordKindView::SRV {
            priority,
            weight,
            port,
            target: target@,
        },
        RecordKind::TXT(strings) => view.kind matches RecordKindView::TXT(texts) && texts.len()
            == strings@.len() && forall|i: int|
            0 <= i < texts.len() ==> #[trigger] texts[i] == strings@[i]@,
        RecordKind::Unimplemented(data) => view.kind == RecordKindView::Unimplemented(data@),
    }
}

/// The view of a response shows all its records, each in its section and in its place.
pub proof fn law_view_shows_every_record(response: Response)
    ensures
        response@.answers.len() == response.answers@.len(),
        forall|i: int|
            0 <= i < response.answers@.len() ==> shows(
                #[trigger] response@.answers[i],
                response.answers@[i],
            ),
        response@.nameservers.len() == response.nameservers@.len(),
        forall|i: int|
            0 <= i < response.nameservers@.len() ==> shows(
                #[trigger] response@.nameservers[i],
                response.nameservers@[i],
            ),
        response@.additional.len() == response.additional@.len(),
        forall|i: int|
            0 <= i < response.additional@.len() ==> shows(
                #[trigger] response@.additional[i],
                response.additional@[i],
            ),
        response@.records() == response@.answers + response@.nameservers + response@.additional,
{
}

/// A response answers for a name exactly if one of its answers has all of that name: without
/// answers it answers for none, and one more answer adds the name of that answer and no other,
/// however alike the names are.
pub proof fn law_answers_go_by_their_whole_name(
    response: ResponseView,
    record: RecordView,
    name: Seq<char>,
)
    ensures
        response.answers.len() == 0 ==> !response.answers_for(name),
        ({
            let more = ResponseView { answers: response.answers.push(record), ..response };
            more.answers_for(name) <==> response.answers_for(name) || {
                &&& name.len() == record.name.len()
                &&& forall|i: int| 0 <= i < name.len() ==> #[trigger] name[i] == record.name[i]
            }
        }),
{
    let more = ResponseView { answers: response.answers.push(record), ..response };
    let n = response.answers.len() as int;
    assert(more.answers[n] == record);
    if response.answers_for(name) {
        let i = choose|i: int|
            0 <= i < response.answers.len() && (#[trigger] response.answers[i]).name == name;
        assert(more.answers[i].name == name);
    }
    if more.answers_for(name) {
        let i = choose|i: int|
            0 <= i < more.answers.len() && (#[trigger] more.answers[i]).name == name;
        assert(i < n ==> response.answers[i].name == name);
    }
    if name.len() == record.name.len() && (forall|i: int|
        0 <= i < name.len() ==> #[trigger] name[i] == record.name[i]) {
        assert(name =~= record.name);
    }
}

} // verus!
