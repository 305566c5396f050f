use vstd::prelude::*;
use crate::context::Context;
use crate::message::{
    copy_questions, copy_records, records_view, DataModel, DnsMessage, Header, IpAddress, MessageModel,
    QuestionModel, RData, Record, RecordModel, CLASS_IN, TYPE_A, TYPE_AAAA,
};
use crate::names::{prefix_equals, strip_dots, stripped_len, utf8};
use crate::net::{address_text, parse_address};
use crate::providers::texts;

verus! {

/// The TTL of a synthesized host answer, in seconds.
pub const HOSTS_TTL: u32 = 60;

/// The words of a text split at white space, as the standard library splits it.
pub uninterp spec fn words(s: Seq<char>) -> Seq<Seq<char>>;

/// Relies on `str::split_whitespace`: the words of the text, in order.
#[verifier::external_body]
pub(crate) fn split_words(s: &str) -> (r: Vec<String>)
    ensures
        texts(r@) == words(s@),
{
    s.split_whitespace().map(|w| w.to_string()).collect()
}

pub open spec fn pairs_view(v: Seq<(String, IpAddress)>) -> Seq<(Seq<char>, IpAddress)> {
    v.map_values(|p: (String, IpAddress)| (p.0@, p.1))
}

/// The name-to-address pairs of one hosts line: `<address> <name> [<name>...]`.
pub open spec fn line_pairs(w: Seq<Seq<char>>) -> Seq<(Seq<char>, IpAddress)> {
    if w.len() >= 2 && address_text(w[0]) is Some {
        w.subrange(1, w.len() as int).map_values(
            |n: Seq<char>| (n, address_text(w[0])->0),
        )
    } else {
        Seq::empty()
    }
}

/// The pairs of hosts lines, in order.
pub open spec fn file_pairs(lines: Seq<Seq<char>>) -> Seq<(Seq<char>, IpAddress)>
    decreases lines.len(),
{
    if lines.len() == 0 {
        Seq::empty()
    } else {
        file_pairs(lines.drop_last()) + line_pairs(words(lines.last()))
    }
}

/// The pairs of inline `(name, address text)` mappings whose address reads as one.
pub open spec fn inline_pairs(m: Seq<(Seq<char>, Seq<char>)>) -> Seq<(Seq<char>, IpAddress)>
    decreases m.len(),
{
    if m.len() == 0 {
        Seq::empty()
    } else if address_text(m.last().1) is Some {
        inline_pairs(m.drop_last()).push((m.last().0, address_text(m.last().1)->0))
    } else {
        inline_pairs(m.drop_last())
    }
}

/// The address of the last pair whose name has the bytes `name`.
pub open spec fn last_address(pairs: Seq<(Seq<char>, IpAddress)>, name: Seq<u8>) -> Option<IpAddress>
    decreases pairs.len(),
{
    if pairs.len() == 0 {
        None
    } else if utf8(pairs.last().0) == name {
        Some(pairs.last().1)
    } else {
        last_address(pairs.drop_last(), name)
    }
}

/// The answer to `query` that says `name` has the address `ip`.
pub open spec fn hosts_answer(request: MessageModel, query: QuestionModel, ip: IpAddress) -> MessageModel {
    MessageModel {
        header: Header {
            id: request.header.id,
            is_response: true,
            recursion_desired: true,
            recursion_available: true,
            ..Header::blank()
        },
        queries: seq![query],
        answers: seq![
            RecordModel {
                name: query.name,
                rtype: match ip {
                    IpAddress::V4(_) => TYPE_A,
                    IpAddress::V6(_) => TYPE_AAAA,
                },
                rclass: CLASS_IN,
                ttl: HOSTS_TTL,
                data: match ip {
                    IpAddress::V4(a) => DataModel::A(a),
                    IpAddress::V6(a) => DataModel::Aaaa(a),
                },
            },
        ],
        name_servers: Seq::empty(),
        additionals: Seq::empty(),
    }
}

/// A static table of names and their addresses; a later mapping of a name wins.
pub struct Hosts {
    pub mappings: Vec<(String, IpAddress)>,
}

impl Hosts {
    pub open spec fn pairs(&self) -> Seq<(Seq<char>, IpAddress)> {
        pairs_view(self.mappings@)
    }

    /// What the plugin does to a context.
    pub open spec fn applied(&self, before: Context, after: Context) -> bool {
        if before.response.is_none() && before.request.queries@.len() > 0 && last_address(
            self.pairs(),
            strip_dots(utf8(before.request.queries@[0].name@)),
        ) is Some {
            &&& after == (Context { response: after.response, ..before })
            &&& after.response is Some
            &&& after.response->0@ == hosts_answer(
                before.request@,
                before.request.queries@[0]@,
                last_address(self.pairs(), strip_dots(utf8(before.request.queries@[0].name@)))->0,
            )
        } else {
            after == before
        }
    }

    /// Loads the mappings of hosts-file lines, then the inline `(name, address)` mappings;
    /// a line or mapping whose address does not read as one is left out.
    pub fn new(lines: &Vec<String>, inline: &Vec<(String, String)>) -> (r: Hosts)
        ensures
            r.pairs() == file_pairs(texts(lines@)) + inline_pairs(
                inline@.map_values(|p: (String, String)| (p.0@, p.1@)),
            ),
    {
        let mut mappings: Vec<(String, IpAddress)> = Vec::new();
        let mut i: usize = 0;
        while i < lines.len()
            invariant
                i <= lines@.len(),
                pairs_view(mappings@) == file_pairs(texts(lines@.subrange(0, i as int))),
            decreases lines@.len() - i,
        {
            let w = split_words(lines[i].as_str());
            let ghost before = pairs_view(mappings@);
            assert(texts(lines@.subrange(0, i + 1)).drop_last() =~= texts(lines@.subrange(0, i as int)));
            assert(texts(lines@.subrange(0, i + 1)).last() == lines@[i as int]@);
            if w.len() >= 2 {
                assert(texts(w@)[0] == w@[0]@);
                match parse_address(w[0].as_str()) {
                    Some(ip) => {
                        let mut j: usize = 1;
                        while j < w.len()
                            invariant
                                1 <= j <= w@.len(),
                                w@.len() >= 2,
                                address_text(texts(w@)[0]) == Some(ip),
                                pairs_view(mappings@) == before + line_pairs(texts(w@)).subrange(0, j - 1),
                            decreases w@.len() - j,
                        {
                            let ghost pv = pairs_view(mappings@);
                            mappings.push((w[j].clone(), ip));
                            assert(texts(w@)[j as int] == w@[j as int]@);
                            assert(pairs_view(mappings@) =~= pv.push((w@[j as int]@, ip)));
                            assert(line_pairs(texts(w@))[j - 1] == (w@[j as int]@, ip));
                            assert(pairs_view(mappings@) =~= before + line_pairs(texts(w@)).subrange(0, j as int));
                            j = j + 1;
                        }
                        assert(line_pairs(texts(w@)).subrange(0, w@.len() - 1) =~= line_pairs(texts(w@)));
                    },
                    None => {
                        assert(line_pairs(texts(w@)) =~= Seq::empty());
                        assert(pairs_view(mappings@) =~= before + line_pairs(texts(w@)));
                    },
                }
            } else {
                assert(line_pairs(texts(w@)) =~= Seq::empty());
                assert(pairs_view(mappings@) =~= before + line_pairs(texts(w@)));
            }
            i = i + 1;
        }
        assert(lines@.subrange(0, lines@.len() as int) =~= lines@);
        let ghost from_files = pairs_view(mappings@);
        let ghost iv = inline@.map_values(|p: (String, String)| (p.0@, p.1@));
        let mut k: usize = 0;
        while k < inline.len()
            invariant
                k <= inline@.len(),
                iv == inline@.map_values(|p: (String, String)| (p.0@, p.1@)),
                pairs_view(mappings@) == from_files + inline_pairs(iv.subrange(0, k as int)),
            decreases inline@.len() - k,
        {
            assert(iv.subrange(0, k + 1).drop_last() =~= iv.subrange(0, k as int));
            assert(iv.subrange(0, k + 1).last() == (inline@[k as int].0@, inline@[k as int].1@));
            match parse_address(inline[k].1.as_str()) {
                Some(ip) => {
                    let ghost pv = pairs_view(mappings@);
                    mappings.push((inline[k].0.clone(), ip));
                    assert(pairs_view(mappings@) =~= pv.push((inline@[k as int].0@, ip)));
                    assert(inline_pairs(iv.subrange(0, k + 1)) == inline_pairs(iv.subrange(0, k as int)).push((inline@[k as int].0@, ip)));
                    assert(pairs_view(mappings@) =~= from_files + inline_pairs(iv.subrange(0, k + 1)));
                },
                None => {},
            }
            k = k + 1;
        }
        assert(iv.subrange(0, inline@.len() as int) =~= iv);
        Hosts { mappings }
    }

    /// The address of the last mapping whose name is the first `end` bytes of `name`.
    pub(crate) fn lookup(&self, name: &[u8], end: usize) -> (r: Option<IpAddress>)
        requires
            end <= name@.len(),
        ensures
            r == last_address(self.pairs(), name@.subrange(0, end as int)),
    {
        let ghost n = name@.subrange(0, end as int);
        let mut i: usize = self.mappings.len();
        assert(self.pairs().subrange(0, i as int) =~= self.pairs());
        while i > 0
            invariant
                i <= self.mappings@.len(),
                end <= name@.len(),
                n == name@.subrange(0, end as int),
                last_address(self.pairs(), n) == last_address(self.pairs().subrange(0, i as int), n),
            decreases i,
        {
            let ghost pre = self.pairs().subrange(0, i as int);
            assert(pre.drop_last() =~= self.pairs().subrange(0, i - 1));
            assert(pre.last() == (self.mappings@[i - 1].0@, self.mappings@[i - 1].1));
            let e = self.mappings[i - 1].0.as_str();
            if prefix_equals(name, end, e.as_bytes()) {
                return Some(self.mappings[i - 1].1);
            }
            i = i - 1;
        }
        None
    }

    /// When no response is present yet and the query's name, trailing dots removed, has a
    /// mapping, answers with that address (TTL 60), mirroring the request's id and question.
    pub fn apply(&self, ctx: &mut Context)
        ensures
            self.applied(*old(ctx), *final(ctx)),
    {
        if ctx.response.is_some() {
            return;
        }
        if ctx.request.queries.len() == 0 {
            return;
        }
        let q = &ctx.request.queries[0];
        let b = q.name.as_str().as_bytes();
        let end = stripped_len(b);
        match self.lookup(b, end) {
            None => {},
            Some(ip) => {
                let (rtype, data) = match ip {
                    IpAddress::V4(a) => (TYPE_A, RData::A(a)),
                    IpAddress::V6(a) => (TYPE_AAAA, RData::Aaaa(a)),
                };
                let mut header = Header::new();
                header.id = ctx.request.header.id;
                header.is_response = true;
                header.recursion_desired = true;
                header.recursion_available = true;
                let record = Record { name: q.name.clone(), rtype, rclass: CLASS_IN, ttl: HOSTS_TTL, data };
                let mut m = DnsMessage::new();
                m.header = header;
                m.queries.push(q.duplicate());
                m.answers.push(record);
                assert(m@.queries =~= seq![ctx.request.queries@[0]@]);
                assert(m@.answers =~= hosts_answer(ctx.request@, ctx.request.queries@[0]@, ip).answers);
                assert(m@.name_servers =~= Seq::<RecordModel>::empty());
                assert(m@.additionals =~= Seq::<RecordModel>::empty());
                ctx.response = Some(m);
            },
        }
    }
}

/// The response code that a configured code selects: its low four bits.
pub open spec fn code_of(rcode: u8) -> u16 {
    (rcode % 16) as u16
}

/// Answers every query with an empty response carrying a fixed response code, and stops
/// the enclosing sequence.
pub struct RejectPlugin {
    pub rcode: u16,
}

/// The configured response code when none is given: REFUSED.
pub fn default_rcode() -> (r: u8)
    ensures
        r == 5,
{
    5
}

/// The empty response to `request` with response code `rcode`.
pub open spec fn rejection(request: MessageModel, rcode: u16) -> MessageModel {
    MessageModel {
        header: Header { is_response: true, response_code: rcode, ..request.header },
        queries: Seq::empty(),
        answers: Seq::empty(),
        name_servers: Seq::empty(),
        additionals: Seq::empty(),
    }
}

impl RejectPlugin {
    /// A rejection with the given code, REFUSED when none is given.
    pub fn new(rcode: Option<u8>) -> (r: RejectPlugin)
        ensures
            r.rcode == code_of(
                match rcode {
                    Some(c) => c,
                    None => 5u8,
                },
            ),
    {
        let c = match rcode {
            Some(c) => c,
            None => default_rcode(),
        };
        RejectPlugin { rcode: (c % 16) as u16 }
    }

    /// Sets the rejection as the response and sets `abort`.
    pub fn apply(&self, ctx: &mut Context)
        ensures
            final(ctx).client_addr == old(ctx).client_addr,
            final(ctx).request == old(ctx).request,
            final(ctx).is_remote == old(ctx).is_remote,
            final(ctx).abort,
            final(ctx).response is Some,
            final(ctx).response->0@ == rejection(old(ctx).request@, self.rcode),
    {
        let mut m = DnsMessage::new();
        m.header = ctx.request.header;
        m.header.response_code = self.rcode;
        m.header.is_response = true;
        m.header.id = ctx.request.header.id;
        assert(m@.queries =~= Seq::<QuestionModel>::empty());
        assert(m@.answers =~= Seq::<RecordModel>::empty());
        assert(m@.name_servers =~= Seq::<RecordModel>::empty());
        assert(m@.additionals =~= Seq::<RecordModel>::empty());
        ctx.response = Some(m);
        ctx.abort = true;
    }
}

/// Stops the enclosing sequence.
pub struct ReturnPlugin;

impl ReturnPlugin {
    pub fn new() -> (r: ReturnPlugin) {
        ReturnPlugin
    }

    /// Sets `abort` and changes nothing else.
    pub fn apply(&self, ctx: &mut Context)
        ensures
            *final(ctx) == (Context { abort: true, ..*old(ctx) }),
    {
        ctx.abort = true;
    }
}

/// A TTL moved into `[min, max]`, the lower bound checked first.
pub open spec fn clamp(ttl: u32, min: u32, max: u32) -> u32 {
    if ttl < min {
        min
    } else if ttl > max {
        max
    } else {
        ttl
    }
}

pub open spec fn clamp_record(r: RecordModel, min: u32, max: u32) -> RecordModel {
    RecordModel { ttl: clamp(r.ttl, min, max), ..r }
}

pub open spec fn clamp_all(s: Seq<RecordModel>, min: u32, max: u32) -> Seq<RecordModel> {
    s.map_values(|r: RecordModel| clamp_record(r, min, max))
}

/// Clamps the TTL of every record of a response into `[min, max]`.
pub struct TtlPlugin {
    pub min: u32,
    pub max: u32,
}

fn clamp_section(v: &Vec<Record>, min: u32, max: u32) -> (r: Vec<Record>)
    ensures
        records_view(r@) == clamp_all(records_view(v@), min, max),
{
    let mut r: Vec<Record> = Vec::new();
    let mut i: usize = 0;
    while i < v.len()
        invariant
            i <= v@.len(),
            r@.len() == i,
            forall|j: int| 0 <= j < i ==> (#[trigger] r@[j])@ == clamp_record(v@[j]@, min, max),
        decreases v@.len() - i,
    {
        let mut c = v[i].duplicate();
        if c.ttl < min {
            c.ttl = min;
        } else if c.ttl > max {
            c.ttl = max;
        }
        r.push(c);
        i = i + 1;
    }
    assert(records_view(r@) =~= clamp_all(records_view(v@), min, max));
    r
}

impl TtlPlugin {
    /// Bounds 0 and `u32::MAX` where none is given.
    pub fn new(min: Option<u32>, max: Option<u32>) -> (r: TtlPlugin)
        ensures
            r.min == match min {
                Some(m) => m,
                None => 0,
            },
            r.max == match max {
                Some(m) => m,
                None => u32::MAX,
            },
    {
        let lo = match min {
            Some(m) => m,
            None => 0,
        };
        let hi = match max {
            Some(m) => m,
            None => u32::MAX,
        };
        TtlPlugin { min: lo, max: hi }
    }

    /// With a response present, clamps the TTLs of its answer, authority and additional
    /// records; nothing else changes.
    pub fn apply(&self, ctx: &mut Context)
        ensures
            final(ctx).client_addr == old(ctx).client_addr,
            final(ctx).request == old(ctx).request,
            final(ctx).abort == old(ctx).abort,
            final(ctx).is_remote == old(ctx).is_remote,
            final(ctx).response.is_some() == old(ctx).response.is_some(),
            final(ctx).response matches Some(n) ==> ({
                let m = old(ctx).response->0;
                &&& n.header == m.header
                &&& n@.queries == m@.queries
                &&& n@.answers == clamp_all(m@.answers, self.min, self.max)
                &&& n@.name_servers == clamp_all(m@.name_servers, self.min, self.max)
                &&& n@.additionals == clamp_all(m@.additionals, self.min, self.max)
            }),
    {
        let n = match &ctx.response {
            None => None,
            Some(m) => Some(
                DnsMessage {
                    header: m.header,
                    queries: copy_questions(&m.queries),
                    answers: clamp_section(&m.answers, self.min, self.max),
                    name_servers: clamp_section(&m.name_servers, self.min, self.max),
                    additionals: clamp_section(&m.additionals, self.min, self.max),
                },
            ),
        };
        ctx.response = n;
    }
}

/// Holds the query for a configured number of milliseconds.
pub struct DelayPlugin {
    pub ms: u64,
}

impl DelayPlugin {
    /// No delay where none is given.
    pub fn new(ms: Option<u64>) -> (r: DelayPlugin)
        ensures
            r.ms == match ms {
                Some(m) => m,
                None => 0,
            },
    {
        DelayPlugin {
            ms: match ms {
                Some(m) => m,
                None => 0,
            },
        }
    }
}

/// Answers from the host's own resolver.
pub struct System;

/// The response built from the records the host's resolver found for `query`.
pub open spec fn resolved_answer(
    request: MessageModel,
    query: QuestionModel,
    records: Seq<RecordModel>,
) -> MessageModel {
    MessageModel {
        header: Header {
            id: request.header.id,
            is_response: true,
            recursion_desired: request.header.recursion_desired,
            recursion_available: true,
            ..Header::blank()
        },
        queries: seq![query],
        answers: records,
        name_servers: Seq::empty(),
        additionals: Seq::empty(),
    }
}

impl System {
    pub fn new() -> (r: System) {
        System
    }

    /// The response to `request` from the records the resolver found for its first question.
    pub fn respond(request: &DnsMessage, records: &Vec<Record>) -> (r: DnsMessage)
        requires
            request.queries@.len() > 0,
        ensures
            r@ == resolved_answer(request@, request.queries@[0]@, records_view(records@)),
    {
        let mut m = DnsMessage::new();
        m.header.id = request.header.id;
        m.header.is_response = true;
        m.header.recursion_desired = request.header.recursion_desired;
        m.header.recursion_available = true;
        m.queries.push(request.queries[0].duplicate());
        m.answers = copy_records(records);
        assert(m@.queries =~= seq![request.queries@[0]@]);
        assert(m@.name_servers =~= Seq::<RecordModel>::empty());
        assert(m@.additionals =~= Seq::<RecordModel>::empty());
        m
    }
}

} // verus!
