use vstd::prelude::*;
use crate::message::IpAddress;
use crate::names::{dot_suffix_match, prefix_equals, prefix_matches, utf8};
use crate::net::{address_text, cidr_holds, cidr_text, parse_address, parse_cidr, Cidr};

verus! {

/// The byte that opens a comment line, `#`.
pub const HASH: u8 = 35;

/// A text with surrounding white space removed, as the standard library trims it.
pub uninterp spec fn trimmed(s: Seq<char>) -> Seq<char>;

/// A text in upper case, as the standard library maps it.
pub uninterp spec fn upper(s: Seq<char>) -> Seq<char>;

/// Relies on `str::trim`: the text without leading and trailing white space.
#[verifier::external_body]
pub(crate) fn trim_text(s: &str) -> (r: String)
    ensures
        r@ == trimmed(s@),
{
    s.trim().to_string()
}

/// Relies on `str::to_uppercase`: the text in upper case.
#[verifier::external_body]
pub(crate) fn upper_text(s: &str) -> (r: String)
    ensures
        r@ == upper(s@),
{
    s.to_uppercase()
}

/// A trimmed line carries an entry when it is neither blank nor a `#` comment.
pub open spec fn is_entry(t: Seq<char>) -> bool {
    utf8(t).len() > 0 && utf8(t)[0] != HASH
}

pub open spec fn texts(v: Seq<String>) -> Seq<Seq<char>> {
    v.map_values(|s: String| s@)
}

/// Whether `name` matches some entry of `entries` by `dot_suffix_match`.
pub open spec fn matches_any(name: Seq<u8>, entries: Seq<Seq<char>>) -> bool {
    exists|i: int| 0 <= i < entries.len() && dot_suffix_match(name, #[trigger] utf8(entries[i]))
}

/// Whether `name` is one of `entries`.
pub open spec fn equals_any(name: Seq<char>, entries: Seq<Seq<char>>) -> bool {
    exists|i: int| 0 <= i < entries.len() && #[trigger] entries[i] == name
}

/// The entries that a list of lines carries, trimmed, in order.
pub open spec fn line_entries(lines: Seq<Seq<char>>) -> Seq<Seq<char>>
    decreases lines.len(),
{
    if lines.len() == 0 {
        Seq::empty()
    } else {
        let rest = line_entries(lines.drop_last());
        let t = trimmed(lines.last());
        if is_entry(t) {
            rest.push(t)
        } else {
            rest
        }
    }
}

/// The address blocks that a list of lines carries: a block where the line reads as one,
/// else the single address it reads as; lines that read as neither are left out.
pub open spec fn line_blocks(lines: Seq<Seq<char>>) -> Seq<Cidr>
    decreases lines.len(),
{
    if lines.len() == 0 {
        Seq::empty()
    } else {
        let rest = line_blocks(lines.drop_last());
        let t = trimmed(lines.last());
        if !is_entry(t) {
            rest
        } else if cidr_text(t) is Some {
            rest.push(cidr_text(t)->0)
        } else if address_text(t) is Some {
            rest.push(host_block(address_text(t)->0))
        } else {
            rest
        }
    }
}

/// The block that holds `ip` alone.
pub open spec fn host_block(ip: IpAddress) -> Cidr {
    Cidr {
        addr: ip,
        prefix_len: match ip {
            IpAddress::V4(_) => 32u8,
            IpAddress::V6(_) => 128u8,
        },
    }
}

/// Whether the line carries an entry, and that entry trimmed.
fn entry_of(line: &String) -> (r: (bool, String))
    ensures
        r.1@ == trimmed(line@),
        r.0 == is_entry(trimmed(line@)),
{
    let t = trim_text(line.as_str());
    let b = t.as_str().as_bytes();
    let keep = b.len() > 0 && b[0] != HASH;
    (keep, t)
}

/// Whether the first `end` bytes of `name` match one of `entries`.
pub(crate) fn any_entry_matches(entries: &Vec<String>, name: &[u8], end: usize) -> (r: bool)
    requires
        end <= name@.len(),
    ensures
        r == matches_any(name@.subrange(0, end as int), texts(entries@)),
{
    let ghost n = name@.subrange(0, end as int);
    let mut i: usize = 0;
    while i < entries.len()
        invariant
            i <= entries@.len(),
            end <= name@.len(),
            n == name@.subrange(0, end as int),
            forall|j: int| 0 <= j < i ==> !dot_suffix_match(n, #[trigger] utf8(entries@[j]@)),
        decreases entries@.len() - i,
    {
        let e = entries[i].as_str();
        if prefix_matches(name, end, e.as_bytes()) {
            assert(texts(entries@)[i as int] == entries@[i as int]@);
            assert(dot_suffix_match(n, utf8(texts(entries@)[i as int])));
            return true;
        }
        i = i + 1;
    }
    assert forall|j: int| 0 <= j < texts(entries@).len() implies !dot_suffix_match(
        n,
        #[trigger] utf8(texts(entries@)[j]),
    ) by {
        assert(texts(entries@)[j] == entries@[j]@);
    }
    false
}

/// A set of domain names, loaded from text lines; a name belongs to it when it is one
/// of the entries or lies below one.
pub struct DomainSetPlugin {
    pub domains: Vec<String>,
}

impl DomainSetPlugin {
    pub open spec fn entries(&self) -> Seq<Seq<char>> {
        texts(self.domains@)
    }

    /// Loads the entries of `lines`: each line trimmed, blank lines and `#` comments left out.
    pub fn new(lines: &Vec<String>) -> (r: DomainSetPlugin)
        ensures
            r.entries() == line_entries(texts(lines@)),
    {
        let mut domains: Vec<String> = Vec::new();
        let mut i: usize = 0;
        while i < lines.len()
            invariant
                i <= lines@.len(),
                texts(domains@) == line_entries(texts(lines@.subrange(0, i as int))),
            decreases lines@.len() - i,
        {
            let (keep, t) = entry_of(&lines[i]);
            assert(texts(lines@.subrange(0, i + 1)).drop_last() =~= texts(lines@.subrange(0, i as int)));
            if keep {
                domains.push(t);
                assert(texts(domains@) =~= texts(domains@).drop_last().push(t@));
            }
            assert(texts(domains@) =~= line_entries(texts(lines@.subrange(0, i + 1))));
            i = i + 1;
        }
        assert(lines@.subrange(0, lines@.len() as int) =~= lines@);
        DomainSetPlugin { domains }
    }

    /// Whether `domain` is an entry or ends with `.` followed by an entry.
    pub fn contains(&self, domain: &str) -> (r: bool)
        ensures
            r == matches_any(utf8(domain@), self.entries()),
    {
        let b = domain.as_bytes();
        assert(b@.subrange(0, b@.len() as int) =~= b@);
        any_entry_matches(&self.domains, b, b.len())
    }

    pub(crate) fn contains_prefix(&self, name: &[u8], end: usize) -> (r: bool)
        requires
            end <= name@.len(),
        ensures
            r == matches_any(name@.subrange(0, end as int), self.entries()),
    {
        any_entry_matches(&self.domains, name, end)
    }
}

/// A set of address blocks, loaded from text lines.
pub struct IpSetPlugin {
    pub cidrs: Vec<Cidr>,
}

/// Whether some block of `blocks` holds `ip`.
pub open spec fn held_by_any(blocks: Seq<Cidr>, ip: IpAddress) -> bool {
    exists|i: int| 0 <= i < blocks.len() && cidr_holds(#[trigger] blocks[i], ip)
}

impl IpSetPlugin {
    /// Loads the blocks of `lines`: each line trimmed, blank lines and `#` comments left
    /// out, a bare address taken as the block of that address alone.
    pub fn new(lines: &Vec<String>) -> (r: IpSetPlugin)
        ensures
            r.cidrs@ == line_blocks(texts(lines@)),
    {
        let mut cidrs: Vec<Cidr> = Vec::new();
        let mut i: usize = 0;
        while i < lines.len()
            invariant
                i <= lines@.len(),
                cidrs@ == line_blocks(texts(lines@.subrange(0, i as int))),
            decreases lines@.len() - i,
        {
            let (keep, t) = entry_of(&lines[i]);
            assert(texts(lines@.subrange(0, i + 1)).drop_last() =~= texts(lines@.subrange(0, i as int)));
            assert(texts(lines@.subrange(0, i + 1)).last() == lines@[i as int]@);
            if keep {
                match parse_cidr(t.as_str()) {
                    Some(c) => cidrs.push(c),
                    None => match parse_address(t.as_str()) {
                        Some(ip) => cidrs.push(Cidr::host(ip)),
                        None => {},
                    },
                }
            }
            i = i + 1;
        }
        assert(lines@.subrange(0, lines@.len() as int) =~= lines@);
        IpSetPlugin { cidrs }
    }

    /// Whether some loaded block holds `ip`.
    pub fn contains(&self, ip: IpAddress) -> (r: bool)
        ensures
            r == held_by_any(self.cidrs@, ip),
    {
        let mut i: usize = 0;
        while i < self.cidrs.len()
            invariant
                i <= self.cidrs@.len(),
                forall|j: int| 0 <= j < i ==> !cidr_holds(#[trigger] self.cidrs@[j], ip),
            decreases self.cidrs@.len() - i,
        {
            if self.cidrs[i].contains(ip) {
                return true;
            }
            i = i + 1;
        }
        false
    }
}

/// Whether the first `end` bytes of `name` are exactly one of `entries`.
pub(crate) fn any_entry_equals(entries: &Vec<String>, name: &[u8], end: usize) -> (r: bool)
    requires
        end <= name@.len(),
    ensures
        r == (exists|i: int|
            0 <= i < entries@.len() && #[trigger] utf8(texts(entries@)[i]) == name@.subrange(
                0,
                end as int,
            )),
{
    let ghost n = name@.subrange(0, end as int);
    let mut i: usize = 0;
    while i < entries.len()
        invariant
            i <= entries@.len(),
            end <= name@.len(),
            n == name@.subrange(0, end as int),
            forall|j: int| 0 <= j < i ==> #[trigger] utf8(texts(entries@)[j]) != n,
        decreases entries@.len() - i,
    {
        let e = entries[i].as_str();
        assert(texts(entries@)[i as int] == entries@[i as int]@);
        if prefix_equals(name, end, e.as_bytes()) {
            assert(utf8(texts(entries@)[i as int]) == n);
            return true;
        }
        i = i + 1;
    }
    false
}

/// Domain rule kind of a site list: a keyword.
pub const GEO_PLAIN: i32 = 0;

/// Domain rule kind of a site list: a domain and everything below it.
pub const GEO_ROOT_DOMAIN: i32 = 2;

/// Domain rule kind of a site list: exactly this domain.
pub const GEO_FULL: i32 = 3;

/// One domain rule of a site list.
pub struct GeoDomain {
    pub kind: i32,
    pub value: String,
}

/// The domain rules filed under one country code.
pub struct GeoSite {
    pub country_code: String,
    pub domains: Vec<GeoDomain>,
}

/// The values of the rules that must be matched exactly.
pub open spec fn full_rules(ds: Seq<GeoDomain>) -> Seq<Seq<char>>
    decreases ds.len(),
{
    if ds.len() == 0 {
        Seq::empty()
    } else if ds.last().kind == GEO_FULL {
        full_rules(ds.drop_last()).push(ds.last().value@)
    } else {
        full_rules(ds.drop_last())
    }
}

/// The values of the rules matched as a domain or below it; keywords are taken so too.
pub open spec fn suffix_rules(ds: Seq<GeoDomain>) -> Seq<Seq<char>>
    decreases ds.len(),
{
    if ds.len() == 0 {
        Seq::empty()
    } else if ds.last().kind == GEO_ROOT_DOMAIN || ds.last().kind == GEO_PLAIN {
        suffix_rules(ds.drop_last()).push(ds.last().value@)
    } else {
        suffix_rules(ds.drop_last())
    }
}

/// The domain set of the site list filed under one country code.
pub struct GeositePlugin {
    pub exact_matches: Vec<String>,
    pub suffix_matches: Vec<String>,
}

/// The index of the first site filed under `code`, or the number of sites if none is.
fn find_site(sites: &Vec<GeoSite>, code: &String) -> (r: usize)
    ensures
        r <= sites@.len(),
        r < sites@.len() ==> sites@[r as int].country_code@ == code@,
        forall|j: int| 0 <= j < r ==> (#[trigger] sites@[j]).country_code@ != code@,
{
    let mut i: usize = 0;
    while i < sites.len()
        invariant
            i <= sites@.len(),
            forall|j: int| 0 <= j < i ==> (#[trigger] sites@[j]).country_code@ != code@,
        decreases sites@.len() - i,
    {
        if sites[i].country_code == *code {
            return i;
        }
        i = i + 1;
    }
    i
}

impl GeositePlugin {
    /// Takes the rules of the first site filed under `code` in upper case: exact rules
    /// apart, domain rules and keywords as suffixes, other kinds left out. With no such
    /// site the set is empty.
    pub fn new(code: &str, sites: &Vec<GeoSite>) -> (r: GeositePlugin)
        ensures
            (exists|i: int|
                0 <= i < sites@.len() && (forall|j: int|
                    0 <= j < i ==> (#[trigger] sites@[j]).country_code@ != upper(code@))
                    && sites@[i].country_code@ == upper(code@) && texts(r.exact_matches@)
                    == full_rules(sites@[i].domains@) && texts(r.suffix_matches@) == suffix_rules(
                    sites@[i].domains@,
                )) || ((forall|j: int|
                0 <= j < sites@.len() ==> (#[trigger] sites@[j]).country_code@ != upper(code@))
                && r.exact_matches@.len() == 0 && r.suffix_matches@.len() == 0),
    {
        let up = upper_text(code);
        let k = find_site(sites, &up);
        let mut exact_matches: Vec<String> = Vec::new();
        let mut suffix_matches: Vec<String> = Vec::new();
        if k < sites.len() {
            let ds = &sites[k].domains;
            let mut i: usize = 0;
            while i < ds.len()
                invariant
                    i <= ds@.len(),
                    texts(exact_matches@) == full_rules(ds@.subrange(0, i as int)),
                    texts(suffix_matches@) == suffix_rules(ds@.subrange(0, i as int)),
                decreases ds@.len() - i,
            {
                let d = &ds[i];
                assert(ds@.subrange(0, i + 1).drop_last() =~= ds@.subrange(0, i as int));
                assert(ds@.subrange(0, i + 1).last() == ds@[i as int]);
                if d.kind == GEO_FULL {
                    exact_matches.push(d.value.clone());
                    assert(texts(exact_matches@) =~= texts(exact_matches@).drop_last().push(d.value@));
                } else if d.kind == GEO_ROOT_DOMAIN || d.kind == GEO_PLAIN {
                    suffix_matches.push(d.value.clone());
                    assert(texts(suffix_matches@) =~= texts(suffix_matches@).drop_last().push(d.value@));
                }
                i = i + 1;
            }
            assert(ds@.subrange(0, ds@.len() as int) =~= ds@);
        }
        GeositePlugin { exact_matches, suffix_matches }
    }

    /// Whether `domain` is an exact rule, or equals or lies below a suffix rule.
    pub fn contains(&self, domain: &str) -> (r: bool)
        ensures
            r == ((exists|i: int|
                0 <= i < self.exact_matches@.len() && #[trigger] utf8(texts(self.exact_matches@)[i])
                    == utf8(domain@)) || matches_any(utf8(domain@), texts(self.suffix_matches@))),
    {
        let b = domain.as_bytes();
        assert(b@.subrange(0, b@.len() as int) =~= b@);
        self.contains_prefix(b, b.len())
    }

    pub(crate) fn contains_prefix(&self, name: &[u8], end: usize) -> (r: bool)
        requires
            end <= name@.len(),
        ensures
            r == ((exists|i: int|
                0 <= i < self.exact_matches@.len() && #[trigger] utf8(texts(self.exact_matches@)[i])
                    == name@.subrange(0, end as int)) || matches_any(
                name@.subrange(0, end as int),
                texts(self.suffix_matches@),
            )),
    {
        if any_entry_equals(&self.exact_matches, name, end) {
            return true;
        }
        any_entry_matches(&self.suffix_matches, name, end)
    }
}

} // verus!
