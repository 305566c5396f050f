use vstd::prelude::*;
use crate::message::{IpAddress, SocketAddress};
use crate::names::utf8;
use crate::providers::texts;

verus! {

/// The bytes of `https://`, the scheme prefix that marks a DNS-over-HTTPS upstream.
pub open spec fn https_prefix() -> Seq<u8> {
    seq![104u8, 116u8, 116u8, 112u8, 115u8, 58u8, 47u8, 47u8]
}

/// An upstream resolver: a UDP endpoint, or a DNS-over-HTTPS URL.
#[derive(Clone, Debug)]
pub enum Upstream {
    Udp(SocketAddress),
    DoH(String),
}

pub enum UpstreamModel {
    Udp(SocketAddress),
    DoH(Seq<char>),
}

impl View for Upstream {
    type V = UpstreamModel;

    open spec fn view(&self) -> UpstreamModel {
        match self {
            Upstream::Udp(a) => UpstreamModel::Udp(*a),
            Upstream::DoH(u) => UpstreamModel::DoH(u@),
        }
    }
}

/// Why a configuration is refused.
#[derive(Clone, Debug, PartialEq, Eq)]
pub enum ConfigError {
    /// A plugin type that needs arguments was given none.
    MissingConfig(String),
    /// A tag that names no plugin declared before.
    PluginNotFound(String),
    /// A condition reference to a plugin without the condition facet.
    NotACondition(String),
    /// A domain provider reference to a plugin without the domain-set facet.
    NotADomainSet(String),
    /// An address provider reference to a plugin without the ip-set facet.
    NotAnIpSet(String),
    /// A forwarder without an upstream.
    NoUpstream,
    /// An upstream or proxy address that does not read as `host:port`.
    InvalidAddress(String),
    /// A DNS-over-HTTPS upstream whose URL does not parse.
    InvalidUrl(String),
    /// The entry tag names no plugin.
    EntryNotFound(String),
}

/// What the URL parser makes of a text: its normal form.
pub uninterp spec fn url_text(s: Seq<char>) -> Option<Seq<char>>;

/// What the standard library reads from a `host:port` text.
pub uninterp spec fn socket_text(s: Seq<char>) -> Option<SocketAddress>;

/// Relies on `reqwest::Url::parse`: the URL in normal form, or nothing where it does not parse.
#[verifier::external_body]
fn parse_url(s: &str) -> (r: Option<String>)
    ensures
        match r {
            Some(u) => url_text(s@) == Some(u@),
            None => url_text(s@) is None,
        },
{
    reqwest::Url::parse(s).ok().map(|u| u.to_string())
}

/// Relies on `FromStr` for `SocketAddr`: the address and port a text spells.
#[verifier::external_body]
fn parse_socket(s: &str) -> (r: Option<SocketAddress>)
    ensures
        r == socket_text(s@),
{
    match s.parse::<core::net::SocketAddr>() {
        Ok(core::net::SocketAddr::V4(a)) => Some(SocketAddress { ip: IpAddress::V4(u32::from(*a.ip())), port: a.port() }),
        Ok(core::net::SocketAddr::V6(a)) => Some(SocketAddress { ip: IpAddress::V6(u128::from(*a.ip())), port: a.port() }),
        Err(_) => None,
    }
}

/// Relies on rand's `SliceRandom::shuffle` with the thread generator: the same items in
/// a random order.
#[verifier::external_body]
fn shuffle(v: &mut Vec<usize>)
    ensures
        final(v)@.to_multiset() == old(v)@.to_multiset(),
{
    rand::seq::SliceRandom::shuffle(v.as_mut_slice(), &mut rand::thread_rng())
}

/// Relies on rand's `SliceRandom::choose` with the thread generator: one of the items,
/// nothing only for an empty list.
#[verifier::external_body]
fn choose_one(v: &Vec<usize>) -> (r: Option<usize>)
    ensures
        r is None <==> v@.len() == 0,
        r matches Some(x) ==> v@.contains(x),
{
    rand::seq::SliceRandom::choose(v.as_slice(), &mut rand::thread_rng()).copied()
}

/// The indices `0..n`, in order.
fn all_indices(n: usize) -> (r: Vec<usize>)
    ensures
        r@ == Seq::new(n as nat, |x: int| x as usize),
{
    let mut v: Vec<usize> = Vec::new();
    let mut j: usize = 0;
    while j < n
        invariant
            j <= n,
            v@ == Seq::new(j as nat, |x: int| x as usize),
        decreases n - j,
    {
        v.push(j);
        j = j + 1;
        assert(v@ =~= Seq::new(j as nat, |x: int| x as usize));
    }
    v
}

/// The first `k` items of `order` (all of them where there are fewer).
pub fn first_picks(order: &Vec<usize>, k: usize) -> (r: Vec<usize>)
    ensures
        r@ == order@.subrange(0, if k < order@.len() { k as int } else { order@.len() as int }),
{
    let m = if k < order.len() { k } else { order.len() };
    let mut r: Vec<usize> = Vec::new();
    let mut i: usize = 0;
    while i < m
        invariant
            m <= order@.len(),
            m == (if k < order@.len() { k as int } else { order@.len() as int }),
            i <= m,
            r@ == order@.subrange(0, i as int),
        decreases m - i,
    {
        r.push(order[i]);
        i = i + 1;
        assert(r@ =~= order@.subrange(0, i as int));
    }
    r
}

/// Whether the text starts with `https://`.
pub open spec fn is_https(s: Seq<char>) -> bool {
    utf8(s).len() >= 8 && utf8(s).subrange(0, 8) == https_prefix()
}

/// The upstream a text declares, or why it is refused.
pub open spec fn upstream_of(s: Seq<char>) -> Result<UpstreamModel, ConfigError> {
    if is_https(s) {
        match url_text(s) {
            Some(u) => Ok(UpstreamModel::DoH(u)),
            None => Err(ConfigError::InvalidUrl(arbitrary())),
        }
    } else {
        match socket_text(s) {
            Some(a) => Ok(UpstreamModel::Udp(a)),
            None => Err(ConfigError::InvalidAddress(arbitrary())),
        }
    }
}

/// The outcome of a parse, with the text of an error left aside.
pub open spec fn same_outcome(r: Result<Upstream, ConfigError>, m: Result<UpstreamModel, ConfigError>) -> bool {
    match (r, m) {
        (Ok(u), Ok(v)) => u@ == v,
        (Err(ConfigError::InvalidUrl(_)), Err(ConfigError::InvalidUrl(_))) => true,
        (Err(ConfigError::InvalidAddress(_)), Err(ConfigError::InvalidAddress(_))) => true,
        _ => false,
    }
}

/// The number of upstreams a query goes to when `concurrent` are asked for out of `n`.
pub open spec fn fan_out(n: nat, concurrent: u32) -> nat {
    if concurrent > 1 && n > 1 {
        if (concurrent as nat) < n {
            concurrent as nat
        } else {
            n
        }
    } else {
        1
    }
}

/// The upstream texts a configuration gives: `addr` first, then the list.
pub open spec fn given_texts(addr: Option<String>, upstreams: Option<Vec<String>>) -> Seq<Seq<char>> {
    (match addr {
        Some(a) => seq![a@],
        None => Seq::empty(),
    }) + match upstreams {
        Some(v) => texts(v@),
        None => Seq::empty(),
    }
}

/// Every text reads as an upstream.
pub open spec fn all_parse(t: Seq<Seq<char>>) -> bool {
    forall|k: int| 0 <= k < t.len() ==> (#[trigger] upstream_of(t[k])) is Ok
}

/// No proxy, or one that reads as `host:port`.
pub open spec fn proxy_ok(socks5: Option<String>) -> bool {
    match socks5 {
        Some(s) => socket_text(s@) is Some,
        None => true,
    }
}

/// `f` is the forwarder the configuration describes: its upstreams are those the texts
/// read as, in order; at least one request at a time; the proxy the text reads as.
pub open spec fn forward_from(
    addr: Option<String>,
    upstreams: Option<Vec<String>>,
    concurrent: u32,
    socks5: Option<String>,
    f: Forward,
) -> bool {
    &&& f.wf()
    &&& f.concurrent == if concurrent > 1 { concurrent } else { 1 }
    &&& f.upstreams@.len() == given_texts(addr, upstreams).len()
    &&& forall|k: int|
        0 <= k < f.upstreams@.len() ==> upstream_of(given_texts(addr, upstreams)[k]) == Ok::<UpstreamModel, ConfigError>(
            #[trigger] f.upstreams@[k]@,
        )
    &&& proxy_ok(socks5)
    &&& f.socks5 == match socks5 {
        Some(s) => socket_text(s@),
        None => None,
    }
}

/// Neither an address nor a non-empty list of upstreams is given.
pub open spec fn none_given(addr: &Option<String>, upstreams: &Option<Vec<String>>) -> bool {
    addr is None && match upstreams {
        None => true,
        Some(v) => v@.len() == 0,
    }
}

/// Forwards queries to upstream resolvers, to several at once where asked, optionally
/// through a SOCKS5 proxy.
pub struct Forward {
    pub upstreams: Vec<Upstream>,
    pub concurrent: u32,
    pub socks5: Option<SocketAddress>,
}

/// The number of upstreams asked at once when none is configured.
pub fn default_concurrent() -> (r: u32)
    ensures
        r == 1,
{
    1
}

impl Forward {
    pub open spec fn wf(&self) -> bool {
        self.upstreams@.len() > 0 && self.concurrent >= 1
    }

    /// An `https://` text is a DNS-over-HTTPS URL; any other text a UDP `host:port`.
    pub fn parse_upstream(s: &str) -> (r: Result<Upstream, ConfigError>)
        ensures
            same_outcome(r, upstream_of(s@)),
    {
        let b = s.as_bytes();
        let https = b.len() >= 8 && b[0] == 104 && b[1] == 116 && b[2] == 116 && b[3] == 112
            && b[4] == 115 && b[5] == 58 && b[6] == 47 && b[7] == 47;
        if b.len() >= 8 && !https {
            assert(b@.subrange(0, 8) != https_prefix()) by {
                if b@.subrange(0, 8) == https_prefix() {
                    assert(b@.subrange(0, 8)[0] == b@[0]);
                }
            }
        }
        if https {
            assert(b@.subrange(0, 8) =~= https_prefix());
            match parse_url(s) {
                Some(u) => Ok(Upstream::DoH(u)),
                None => Err(ConfigError::InvalidUrl(s.to_owned())),
            }
        } else {
            match parse_socket(s) {
                Some(a) => Ok(Upstream::Udp(a)),
                None => Err(ConfigError::InvalidAddress(s.to_owned())),
            }
        }
    }

    /// Takes `addr`, then each of `upstreams`; refuses a text that does not read as an
    /// upstream, and a forwarder with none. A proxy must read as `host:port`.
    pub fn new(
        addr: &Option<String>,
        upstreams: &Option<Vec<String>>,
        concurrent: u32,
        socks5: &Option<String>,
    ) -> (r: Result<Forward, ConfigError>)
        ensures
            match r {
                Ok(f) => forward_from(*addr, *upstreams, concurrent, *socks5, f),
                Err(_) => !(all_parse(given_texts(*addr, *upstreams)) && given_texts(*addr, *upstreams).len() > 0
                    && proxy_ok(*socks5)),
            },
            r matches Err(ConfigError::NoUpstream) ==> none_given(addr, upstreams),
            none_given(addr, upstreams) ==> r matches Err(ConfigError::NoUpstream),
    {
        let ghost given = given_texts(*addr, *upstreams);
        let mut list: Vec<Upstream> = Vec::new();
        match addr {
            Some(a) => match Forward::parse_upstream(a.as_str()) {
                Ok(u) => list.push(u),
                Err(e) => {
                    assert(given[0] == a@);
                    return Err(e);
                },
            },
            None => {},
        }
        let ghost base: int = if addr is Some { 1 } else { 0 };
        match upstreams {
            Some(v) => {
                let mut i: usize = 0;
                while i < v.len()
                    invariant
                        i <= v@.len(),
                        upstreams matches Some(w) && w@ == v@,
                        given == given_texts(*addr, *upstreams),
                        base == (if addr is Some { 1int } else { 0 }),
                        given.len() == base + v@.len(),
                        list@.len() == base + i,
                        forall|k: int| 0 <= k < base ==> given[k] == addr->0@,
                        forall|k: int| 0 <= k < v@.len() ==> given[base + k] == v@[k]@,
                        forall|k: int|
                            0 <= k < list@.len() ==> upstream_of(given[k]) == Ok::<UpstreamModel, ConfigError>(
                                #[trigger] list@[k]@,
                            ),
                    decreases v@.len() - i,
                {
                    match Forward::parse_upstream(v[i].as_str()) {
                        Ok(u) => list.push(u),
                        Err(e) => {
                            assert(given[base + i] == v@[i as int]@);
                            return Err(e);
                        },
                    }
                    i = i + 1;
                }
            },
            None => {
                assert(given.len() == base);
            },
        }
        if list.len() == 0 {
            return Err(ConfigError::NoUpstream);
        }
        let proxy = match socks5 {
            Some(s) => match parse_socket(s.as_str()) {
                Some(a) => Some(a),
                None => return Err(ConfigError::InvalidAddress(s.clone())),
            },
            None => None,
        };
        let c = if concurrent > 1 {
            concurrent
        } else {
            1
        };
        Ok(Forward { upstreams: list, concurrent: c, socks5: proxy })
    }

    /// The indices of the upstreams to ask for one query: the first `concurrent` of them in
    /// a random order, where more than one is asked for and there is more than one; else one
    /// picked at random among them.
    pub fn select(&self) -> (r: Vec<usize>)
        requires
            self.wf(),
        ensures
            r@.len() == fan_out(self.upstreams@.len(), self.concurrent),
            r@.no_duplicates(),
            forall|i: int| 0 <= i < r@.len() ==> r@[i] < self.upstreams@.len(),
    {
        let n = self.upstreams.len();
        let all = all_indices(n);
        proof {
            assert(all@.no_duplicates());
        }
        if self.concurrent > 1 && n > 1 {
            let mut order = all;
            let ghost before = order@;
            shuffle(&mut order);
            proof {
                before.to_multiset_ensures();
                order@.to_multiset_ensures();
                before.lemma_multiset_has_no_duplicates();
                assert forall|x: usize| order@.to_multiset().contains(x) implies order@.to_multiset().count(x) == 1 by {}
                order@.lemma_multiset_has_no_duplicates_conv();
                assert(order@.len() == before.len()) by {
                    assert(order@.to_multiset().len() == before.to_multiset().len());
                }
                assert forall|i: int| 0 <= i < order@.len() implies order@[i] < n by {
                    let y = order@[i];
                    assert(order@.contains(y));
                    assert(order@.to_multiset().count(y) > 0);
                    assert(before.to_multiset().count(y) > 0);
                    assert(before.contains(y));
                    let j = choose|j: int| 0 <= j < before.len() && before[j] == y;
                    assert(before[j] == j as usize);
                }
            }
            let k: usize = if (self.concurrent as usize) < n {
                self.concurrent as usize
            } else {
                n
            };
            let picked = first_picks(&order, k);
            proof {
                assert forall|i: int, j: int| 0 <= i < j < picked@.len() implies picked@[i] != picked@[j] by {
                    assert(picked@[i] == order@[i]);
                    assert(picked@[j] == order@[j]);
                }
            }
            picked
        } else if n > 1 {
            let x = match choose_one(&all) {
                Some(x) => x,
                None => 0,
            };
            let mut picked: Vec<usize> = Vec::new();
            picked.push(x);
            picked
        } else {
            let mut picked: Vec<usize> = Vec::new();
            picked.push(0);
            picked
        }
    }
}

/// A message preceded by its length as two big-endian bytes, as DNS over TCP frames it.
pub open spec fn framed(msg: Seq<u8>) -> Seq<u8> {
    seq![(msg.len() / 256) as u8, (msg.len() % 256) as u8] + msg
}

/// Frames `msg` for a stream: its length in two big-endian bytes, then the message.
pub fn frame_message(msg: &Vec<u8>) -> (r: Vec<u8>)
    requires
        msg@.len() <= u16::MAX,
    ensures
        r@ == framed(msg@),
{
    let len = msg.len();
    let mut r: Vec<u8> = Vec::new();
    r.push((len / 256) as u8);
    r.push((len % 256) as u8);
    let mut i: usize = 0;
    while i < len
        invariant
            len == msg@.len(),
            len <= u16::MAX,
            i <= len,
            r@ == seq![(len / 256) as u8, (len % 256) as u8] + msg@.subrange(0, i as int),
        decreases len - i,
    {
        r.push(msg[i]);
        i = i + 1;
        assert(r@ =~= seq![(len / 256) as u8, (len % 256) as u8] + msg@.subrange(0, i as int));
    }
    assert(msg@.subrange(0, len as int) =~= msg@);
    r
}

/// The length that a two-byte big-endian prefix announces.
pub fn frame_length(high: u8, low: u8) -> (r: usize)
    ensures
        r == high as int * 256 + low as int,
{
    (high as usize) * 256 + (low as usize)
}

} // verus!
