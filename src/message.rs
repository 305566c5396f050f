use vstd::prelude::*;

verus! {

/// Record type of an IPv4 address record.
pub const TYPE_A: u16 = 1;

/// Record type of an IPv6 address record.
pub const TYPE_AAAA: u16 = 28;

/// The Internet class.
pub const CLASS_IN: u16 = 1;

/// Response code: no error.
pub const RCODE_NO_ERROR: u16 = 0;

/// Response code: the name does not exist.
pub const RCODE_NX_DOMAIN: u16 = 3;

/// Response code: the server refuses to answer.
pub const RCODE_REFUSED: u16 = 5;

/// An IP address, as the integer its bytes spell in network order.
#[derive(Clone, Copy, Debug, PartialEq, Eq, Structural)]
pub enum IpAddress {
    V4(u32),
    V6(u128),
}

/// An IP address and a port.
#[derive(Clone, Copy, Debug, PartialEq, Eq, Structural)]
pub struct SocketAddress {
    pub ip: IpAddress,
    pub port: u16,
}

/// The fixed header of a DNS message.
#[derive(Clone, Copy, Debug, PartialEq, Eq, Structural)]
pub struct Header {
    pub id: u16,
    pub is_response: bool,
    pub op_code: u8,
    pub authoritative: bool,
    pub truncated: bool,
    pub recursion_desired: bool,
    pub recursion_available: bool,
    pub authentic_data: bool,
    pub checking_disabled: bool,
    pub response_code: u16,
}

impl Header {
    /// The header of an empty query: every flag clear, every field zero.
    pub open spec fn blank() -> Header {
        Header {
            id: 0,
            is_response: false,
            op_code: 0,
            authoritative: false,
            truncated: false,
            recursion_desired: false,
            recursion_available: false,
            authentic_data: false,
            checking_disabled: false,
            response_code: 0,
        }
    }

    pub fn new() -> (r: Header)
        ensures
            r == Header::blank(),
    {
        Header {
            id: 0,
            is_response: false,
            op_code: 0,
            authoritative: false,
            truncated: false,
            recursion_desired: false,
            recursion_available: false,
            authentic_data: false,
            checking_disabled: false,
            response_code: 0,
        }
    }
}

/// The data of a resource record: an address, or the raw wire form of any other type.
#[derive(Clone, Debug)]
pub enum RData {
    A(u32),
    Aaaa(u128),
    Other(Vec<u8>),
}

pub enum DataModel {
    A(u32),
    Aaaa(u128),
    Other(Seq<u8>),
}

impl View for RData {
    type V = DataModel;

    open spec fn view(&self) -> DataModel {
        match self {
            RData::A(a) => DataModel::A(*a),
            RData::Aaaa(a) => DataModel::Aaaa(*a),
            RData::Other(b) => DataModel::Other(b@),
        }
    }
}

/// A resource record.
#[derive(Clone, Debug)]
pub struct Record {
    pub name: String,
    pub rtype: u16,
    pub rclass: u16,
    pub ttl: u32,
    pub data: RData,
}

pub struct RecordModel {
    pub name: Seq<char>,
    pub rtype: u16,
    pub rclass: u16,
    pub ttl: u32,
    pub data: DataModel,
}

impl View for Record {
    type V = RecordModel;

    open spec fn view(&self) -> RecordModel {
        RecordModel {
            name: self.name@,
            rtype: self.rtype,
            rclass: self.rclass,
            ttl: self.ttl,
            data: self.data@,
        }
    }
}

/// An entry of the question section.
#[derive(Clone, Debug)]
pub struct Question {
    pub name: String,
    pub qtype: u16,
    pub qclass: u16,
}

pub struct QuestionModel {
    pub name: Seq<char>,
    pub qtype: u16,
    pub qclass: u16,
}

impl View for Question {
    type V = QuestionModel;

    open spec fn view(&self) -> QuestionModel {
        QuestionModel { name: self.name@, qtype: self.qtype, qclass: self.qclass }
    }
}

/// A decoded DNS message.
#[derive(Clone, Debug)]
pub struct DnsMessage {
    pub header: Header,
    pub queries: Vec<Question>,
    pub answers: Vec<Record>,
    pub name_servers: Vec<Record>,
    pub additionals: Vec<Record>,
}

pub struct MessageModel {
    pub header: Header,
    pub queries: Seq<QuestionModel>,
    pub answers: Seq<RecordModel>,
    pub name_servers: Seq<RecordModel>,
    pub additionals: Seq<RecordModel>,
}

pub open spec fn records_view(v: Seq<Record>) -> Seq<RecordModel> {
    v.map_values(|r: Record| r@)
}

pub open spec fn questions_view(v: Seq<Question>) -> Seq<QuestionModel> {
    v.map_values(|q: Question| q@)
}

impl View for DnsMessage {
    type V = MessageModel;

    open spec fn view(&self) -> MessageModel {
        MessageModel {
            header: self.header,
            queries: questions_view(self.queries@),
            answers: records_view(self.answers@),
            name_servers: records_view(self.name_servers@),
            additionals: records_view(self.additionals@),
        }
    }
}

/// A copy of `b`.
pub fn copy_bytes(b: &Vec<u8>) -> (r: Vec<u8>)
    ensures
        r@ == b@,
{
    let mut r: Vec<u8> = Vec::new();
    let mut i: usize = 0;
    while i < b.len()
        invariant
            i <= b@.len(),
            r@ == b@.subrange(0, i as int),
        decreases b@.len() - i,
    {
        r.push(b[i]);
        i = i + 1;
    }
    assert(r@ =~= b@);
    r
}

impl RData {
    pub fn duplicate(&self) -> (r: RData)
        ensures
            r@ == self@,
    {
        match self {
            RData::A(a) => RData::A(*a),
            RData::Aaaa(a) => RData::Aaaa(*a),
            RData::Other(b) => RData::Other(copy_bytes(b)),
        }
    }
}

impl Record {
    pub fn duplicate(&self) -> (r: Record)
        ensures
            r@ == self@,
    {
        Record {
            name: self.name.clone(),
            rtype: self.rtype,
            rclass: self.rclass,
            ttl: self.ttl,
            data: self.data.duplicate(),
        }
    }
}

impl Question {
    pub fn duplicate(&self) -> (r: Question)
        ensures
            r@ == self@,
    {
        Question { name: self.name.clone(), qtype: self.qtype, qclass: self.qclass }
    }
}

/// A copy of a record section.
pub fn copy_records(v: &Vec<Record>) -> (r: Vec<Record>)
    ensures
        records_view(r@) == records_view(v@),
{
    let mut r: Vec<Record> = Vec::new();
    let mut i: usize = 0;
    while i < v.len()
        invariant
            i <= v@.len(),
            r@.len() == i,
            forall|j: int| 0 <= j < i ==> (#[trigger] r@[j])@ == v@[j]@,
        decreases v@.len() - i,
    {
        r.push(v[i].duplicate());
        i = i + 1;
    }
    assert(records_view(r@) =~= records_view(v@));
    r
}

/// A copy of a question section.
pub fn copy_questions(v: &Vec<Question>) -> (r: Vec<Question>)
    ensures
        questions_view(r@) == questions_view(v@),
{
    let mut r: Vec<Question> = Vec::new();
    let mut i: usize = 0;
    while i < v.len()
        invariant
            i <= v@.len(),
            r@.len() == i,
            forall|j: int| 0 <= j < i ==> (#[trigger] r@[j])@ == v@[j]@,
        decreases v@.len() - i,
    {
        r.push(v[i].duplicate());
        i = i + 1;
    }
    assert(questions_view(r@) =~= questions_view(v@));
    r
}

impl DnsMessage {
    /// A message with a blank header and empty sections, as a new message starts out.
    pub fn new() -> (r: DnsMessage)
        ensures
            r.header == Header::blank(),
            r.queries@.len() == 0,
            r.answers@.len() == 0,
            r.name_servers@.len() == 0,
            r.additionals@.len() == 0,
    {
        DnsMessage {
            header: Header::new(),
            queries: Vec::new(),
            answers: Vec::new(),
            name_servers: Vec::new(),
            additionals: Vec::new(),
        }
    }

    pub fn duplicate(&self) -> (r: DnsMessage)
        ensures
            r@ == self@,
    {
        DnsMessage {
            header: self.header,
            queries: copy_questions(&self.queries),
            answers: copy_records(&self.answers),
            name_servers: copy_records(&self.name_servers),
            additionals: copy_records(&self.additionals),
        }
    }
}

} // verus!
