use vstd::prelude::*;
use crate::context::Context;
use crate::forward::{all_parse, forward_from, given_texts, proxy_ok, upstream_of, ConfigError, Forward, UpstreamModel};
use crate::leaves::{code_of, file_pairs, inline_pairs, DelayPlugin, Hosts, RejectPlugin, ReturnPlugin, System, TtlPlugin};
use crate::message::IpAddress;
use crate::names::{prefix_matches, strip_dots, stripped_len, utf8};
use vstd::utf8::decode_utf8;
use crate::providers::{held_by_any, line_blocks, line_entries, matches_any, texts, DomainSetPlugin, IpSetPlugin};

verus! {

/// Runs its children in order, stopping before a child once `abort` is set.
pub struct Sequence {
    pub plugins: Vec<usize>,
}

/// Runs one of two child lists, chosen by a condition.
pub struct IfPlugin {
    pub cond: usize,
    pub then_exec: Vec<usize>,
    pub else_exec: Vec<usize>,
}

/// A disjunction over the query name and the client address; a condition, and as a
/// plugin it runs its children when the disjunction holds.
pub struct Matcher {
    pub domains: Vec<String>,
    pub domain_providers: Vec<usize>,
    pub ip_providers: Vec<usize>,
    pub plugins: Vec<usize>,
}

/// Runs `primary`, and `secondary` only where `primary` fails.
pub struct FallbackPlugin {
    pub primary: usize,
    pub secondary: usize,
}

/// Memoizes the responses its children produce.
pub struct Cache {
    pub size: usize,
    pub ttl_ms: u64,
    pub plugins: Vec<usize>,
}

/// A plugin of the pipeline; children and providers are named by their registry index.
pub enum Plugin {
    Forward(Forward),
    Sequence(Sequence),
    Matcher(Matcher),
    Hosts(Hosts),
    Cache(Cache),
    DomainSet(DomainSetPlugin),
    IpSet(IpSetPlugin),
    If(IfPlugin),
    Return(ReturnPlugin),
    Reject(RejectPlugin),
    System(System),
    Delay(DelayPlugin),
    Fallback(FallbackPlugin),
    Ttl(TtlPlugin),
}

impl Plugin {
    /// The plugin's type name, as configurations write it.
    pub fn name(&self) -> &'static str {
        match self {
            Plugin::Forward(_) => "forward",
            Plugin::Sequence(_) => "sequence",
            Plugin::Matcher(_) => "matcher",
            Plugin::Hosts(_) => "hosts",
            Plugin::Cache(_) => "cache",
            Plugin::DomainSet(_) => "domain_set",
            Plugin::IpSet(_) => "ip_set",
            Plugin::If(_) => "if",
            Plugin::Return(_) => "return",
            Plugin::Reject(_) => "reject",
            Plugin::System(_) => "system",
            Plugin::Delay(_) => "delay",
            Plugin::Fallback(_) => "fallback",
            Plugin::Ttl(_) => "ttl",
        }
    }
}

/// Every index of `v` is below `bound`.
pub open spec fn all_below(v: Seq<usize>, bound: int) -> bool {
    forall|i: int| 0 <= i < v.len() ==> #[trigger] v[i] < bound
}

/// Every plugin that `p` refers to comes before index `bound`.
pub open spec fn refs_below(p: Plugin, bound: int) -> bool {
    match p {
        Plugin::Sequence(s) => all_below(s.plugins@, bound),
        Plugin::If(f) => f.cond < bound && all_below(f.then_exec@, bound) && all_below(f.else_exec@, bound),
        Plugin::Matcher(m) => all_below(m.domain_providers@, bound) && all_below(m.ip_providers@, bound)
            && all_below(m.plugins@, bound),
        Plugin::Fallback(f) => f.primary < bound && f.secondary < bound,
        Plugin::Cache(c) => all_below(c.plugins@, bound),
        _ => true,
    }
}

/// Whether the plugin offers the condition facet.
pub open spec fn is_condition(p: Plugin) -> bool {
    p is Matcher
}

/// Whether the plugin offers the domain-set facet.
pub open spec fn is_domain_set(p: Plugin) -> bool {
    p is DomainSet
}

/// Whether the plugin offers the ip-set facet.
pub open spec fn is_ip_set(p: Plugin) -> bool {
    p is IpSet
}

/// The plugins registered under the tags of a registry, and which tag each plugin has.
pub struct Registry {
    pub tags: Vec<String>,
    pub plugins: Vec<Plugin>,
}

/// The index of the last tag equal to `t`: a later declaration of a tag shadows an
/// earlier one.
pub open spec fn tag_index(tags: Seq<Seq<char>>, t: Seq<char>) -> Option<int>
    decreases tags.len(),
{
    if tags.len() == 0 {
        None
    } else if tags.last() == t {
        Some(tags.len() - 1)
    } else {
        tag_index(tags.drop_last(), t)
    }
}

/// `idx` holds, for each tag of `wanted`, the index that tag resolves to.
pub open spec fn resolves(tags: Seq<Seq<char>>, wanted: Seq<Seq<char>>, idx: Seq<usize>) -> bool {
    &&& idx.len() == wanted.len()
    &&& forall|i: int| 0 <= i < wanted.len() ==> tag_index(tags, #[trigger] wanted[i]) == Some(idx[i] as int)
}

/// Every tag of `wanted` resolves.
pub open spec fn all_known(tags: Seq<Seq<char>>, wanted: Seq<Seq<char>>) -> bool {
    forall|i: int| 0 <= i < wanted.len() ==> tag_index(tags, #[trigger] wanted[i]) is Some
}

impl Registry {
    pub open spec fn tag_seq(&self) -> Seq<Seq<char>> {
        texts(self.tags@)
    }

    /// The facet of each plugin, by index.
    pub open spec fn facets(&self) -> Seq<Option<Facet>> {
        self.plugins@.map_values(|p: Plugin| facet_of(p))
    }

    pub open spec fn len(&self) -> int {
        self.plugins@.len() as int
    }

    /// The facets that the plugin at `i` asks of the plugins it refers to are there.
    pub open spec fn facets_ok(&self, p: Plugin) -> bool {
        match p {
            Plugin::If(f) => f.cond < self.len() && is_condition(self.plugins@[f.cond as int]),
            Plugin::Matcher(m) => (forall|j: int|
                0 <= j < m.domain_providers@.len() ==> is_domain_set(
                    self.plugins@[#[trigger] m.domain_providers@[j] as int],
                )) && (forall|j: int|
                0 <= j < m.ip_providers@.len() ==> is_ip_set(
                    self.plugins@[#[trigger] m.ip_providers@[j] as int],
                )),
            _ => true,
        }
    }

    /// One tag per plugin; each plugin refers only to plugins declared before it, with the
    /// facets it needs of them.
    pub open spec fn wf(&self) -> bool {
        &&& self.tags@.len() == self.plugins@.len()
        &&& forall|i: int| 0 <= i < self.len() ==> refs_below(#[trigger] self.plugins@[i], i)
        &&& forall|i: int| 0 <= i < self.len() ==> self.facets_ok(#[trigger] self.plugins@[i])
        &&& forall|i: int|
            0 <= i < self.len() ==> (#[trigger] self.plugins@[i] matches Plugin::Forward(f) ==> f.wf())
    }

    pub fn new() -> (r: Registry)
        ensures
            r.wf(),
            r.len() == 0,
    {
        Registry { tags: Vec::new(), plugins: Vec::new() }
    }

    /// The index the tag resolves to.
    pub fn find(&self, tag: &str) -> (r: Option<usize>)
        requires
            self.wf(),
        ensures
            match r {
                Some(i) => tag_index(self.tag_seq(), tag@) == Some(i as int) && i < self.len(),
                None => tag_index(self.tag_seq(), tag@) is None,
            },
    {
        let t = tag.to_owned();
        let mut i: usize = self.tags.len();
        assert(self.tag_seq().subrange(0, i as int) =~= self.tag_seq());
        while i > 0
            invariant
                self.wf(),
                i <= self.tags@.len(),
                t@ == tag@,
                tag_index(self.tag_seq(), tag@) == tag_index(self.tag_seq().subrange(0, i as int), tag@),
            decreases i,
        {
            let ghost pre = self.tag_seq().subrange(0, i as int);
            assert(pre.drop_last() =~= self.tag_seq().subrange(0, i - 1));
            assert(pre.last() == self.tags@[i - 1]@);
            if self.tags[i - 1] == t {
                return Some(i - 1);
            }
            i = i - 1;
        }
        None
    }

    /// The indices the tags resolve to, or the first tag that does not resolve.
    pub fn resolve_all(&self, wanted: &Vec<String>) -> (r: Result<Vec<usize>, ConfigError>)
        requires
            self.wf(),
        ensures
            match r {
                Ok(v) => resolves(self.tag_seq(), texts(wanted@), v@) && all_below(v@, self.len()),
                Err(e) => !all_known(self.tag_seq(), texts(wanted@)) && e is PluginNotFound,
            },
            r.is_ok() <==> all_known(self.tag_seq(), texts(wanted@)),
    {
        let mut v: Vec<usize> = Vec::new();
        let mut i: usize = 0;
        while i < wanted.len()
            invariant
                self.wf(),
                i <= wanted@.len(),
                resolves(self.tag_seq(), texts(wanted@).subrange(0, i as int), v@),
                all_below(v@, self.len()),
            decreases wanted@.len() - i,
        {
            assert(texts(wanted@)[i as int] == wanted@[i as int]@);
            match self.find(wanted[i].as_str()) {
                Some(k) => {
                    v.push(k);
                    assert(texts(wanted@).subrange(0, i + 1) =~= texts(wanted@).subrange(0, i as int).push(wanted@[i as int]@));
                    assert forall|j: int| 0 <= j <= i implies tag_index(
                        self.tag_seq(),
                        #[trigger] texts(wanted@).subrange(0, i + 1)[j],
                    ) == Some(v@[j] as int) by {
                        if j < i {
                            assert(texts(wanted@).subrange(0, i + 1)[j] == texts(wanted@).subrange(0, i as int)[j]);
                        }
                    }
                },
                None => {
                    return Err(ConfigError::PluginNotFound(wanted[i].clone()));
                },
            }
            i = i + 1;
        }
        assert(texts(wanted@).subrange(0, wanted@.len() as int) =~= texts(wanted@));
        Ok(v)
    }

    /// Whether the plugin at `i` offers the condition facet.
    pub fn as_condition(&self, i: usize) -> (r: bool)
        requires
            i < self.len(),
        ensures
            r == is_condition(self.plugins@[i as int]),
    {
        match &self.plugins[i] {
            Plugin::Matcher(_) => true,
            _ => false,
        }
    }

    /// Whether the plugin at `i` offers the domain-set facet.
    pub fn as_domain_set(&self, i: usize) -> (r: bool)
        requires
            i < self.len(),
        ensures
            r == is_domain_set(self.plugins@[i as int]),
    {
        match &self.plugins[i] {
            Plugin::DomainSet(_) => true,
            _ => false,
        }
    }

    /// Whether the plugin at `i` offers the ip-set facet.
    pub fn as_ip_set(&self, i: usize) -> (r: bool)
        requires
            i < self.len(),
        ensures
            r == is_ip_set(self.plugins@[i as int]),
    {
        match &self.plugins[i] {
            Plugin::IpSet(_) => true,
            _ => false,
        }
    }
}

/// The characters of `provider:`, the prefix that marks a registry reference.
pub open spec fn provider_prefix() -> Seq<char> {
    seq!['p', 'r', 'o', 'v', 'i', 'd', 'e', 'r', ':']
}

/// The bytes of `s` after the prefix `p`, where `s` starts with it.
pub open spec fn after_prefix(s: Seq<char>, p: Seq<char>) -> Option<Seq<u8>> {
    if utf8(s).len() >= utf8(p).len() && utf8(s).subrange(0, utf8(p).len() as int) == utf8(p) {
        Some(utf8(s).subrange(utf8(p).len() as int, utf8(s).len() as int))
    } else {
        None
    }
}

/// The reference a text makes with the `provider:` prefix, if it has it.
pub open spec fn provider_ref(s: Seq<char>) -> Option<Seq<u8>> {
    after_prefix(s, provider_prefix())
}

/// The tag a reference text names: what follows `provider:`, else the whole text.
pub open spec fn named_tag(s: Seq<char>) -> Seq<char> {
    match provider_ref(s) {
        Some(b) => decode_utf8(b),
        None => s,
    }
}

/// Relies on `str::strip_prefix`: the rest of `s` after `p`, where `s` starts with `p`.
#[verifier::external_body]
fn strip_text_prefix(s: &str, p: &str) -> (r: Option<String>)
    ensures
        match r {
            Some(t) => after_prefix(s@, p@) == Some(utf8(t@)),
            None => after_prefix(s@, p@) is None,
        },
{
    s.strip_prefix(p).map(|t| t.to_string())
}

/// Whether the text `s` is a `provider:` reference, and the tag it names.
fn reference_tag(s: &String) -> (r: (bool, String))
    ensures
        r.0 == provider_ref(s@) is Some,
        r.1@ == named_tag(s@),
{
    let prefix = "provider:";
    proof {
        reveal_strlit("provider:");
    }
    assert(prefix@ =~= provider_prefix());
    match strip_text_prefix(s.as_str(), prefix) {
        Some(t) => {
            proof {
                vstd::utf8::encode_utf8_decode_utf8(t@);
            }
            (true, t)
        },
        None => (false, s.clone()),
    }
}

/// A capability facet that a plugin may offer.
#[derive(Clone, Copy, Debug, PartialEq, Eq, Structural)]
pub enum Facet {
    Condition,
    DomainSet,
    IpSet,
}

/// The facet a plugin offers.
pub open spec fn facet_of(p: Plugin) -> Option<Facet> {
    match p {
        Plugin::Matcher(_) => Some(Facet::Condition),
        Plugin::DomainSet(_) => Some(Facet::DomainSet),
        Plugin::IpSet(_) => Some(Facet::IpSet),
        _ => None,
    }
}

/// The facet the plugin a declaration asks for will offer.
pub open spec fn facet_of_args(a: PluginArgs) -> Option<Facet> {
    match a {
        PluginArgs::Matcher(_) => Some(Facet::Condition),
        PluginArgs::DomainSet(_) => Some(Facet::DomainSet),
        PluginArgs::IpSet(_) => Some(Facet::IpSet),
        _ => None,
    }
}

/// Every tag the reference text `s` names resolves, among `tags`, to a plugin that offers
/// `f` (`facets` holds the facet of each plugin, by index).
pub open spec fn names_resolve(tags: Seq<Seq<char>>, facets: Seq<Option<Facet>>, s: Seq<char>, f: Facet) -> bool {
    tag_index(tags, named_tag(s)) is Some && facets[tag_index(tags, named_tag(s))->0] == Some(f)
}

/// The tags the `provider:` references among `refs` name, in order.
pub open spec fn provider_tags(refs: Seq<Seq<char>>) -> Seq<Seq<char>>
    decreases refs.len(),
{
    if refs.len() == 0 {
        Seq::empty()
    } else if provider_ref(refs.last()) is Some {
        provider_tags(refs.drop_last()).push(named_tag(refs.last()))
    } else {
        provider_tags(refs.drop_last())
    }
}

/// The entries of `refs` that are not `provider:` references, in order.
pub open spec fn plain_entries(refs: Seq<Seq<char>>) -> Seq<Seq<char>>
    decreases refs.len(),
{
    if refs.len() == 0 {
        Seq::empty()
    } else if provider_ref(refs.last()) is Some {
        plain_entries(refs.drop_last())
    } else {
        plain_entries(refs.drop_last()).push(refs.last())
    }
}

/// Every `provider:` reference among `refs` resolves to a plugin that offers `f`.
pub open spec fn providers_resolve(
    tags: Seq<Seq<char>>,
    facets: Seq<Option<Facet>>,
    refs: Seq<String>,
    f: Facet,
) -> bool {
    forall|j: int|
        0 <= j < refs.len() && provider_ref(#[trigger] refs[j]@) is Some ==> names_resolve(tags, facets, refs[j]@, f)
}

/// A declaration is built without error against plugins with these tags and facets.
#[verifier::opaque]
pub open spec fn accepts(a: PluginArgs, tags: Seq<Seq<char>>, facets: Seq<Option<Facet>>) -> bool {
    match a {
        PluginArgs::Forward(c) => match c {
            Some(c) => all_parse(given_texts(c.addr, c.upstreams)) && given_texts(c.addr, c.upstreams).len()
                > 0 && proxy_ok(c.socks5),
            None => false,
        },
        PluginArgs::Sequence(c) => match c {
            Some(c) => all_known(tags, texts(c.exec_tags@)),
            None => true,
        },
        PluginArgs::Matcher(c) => match c {
            Some(c) => all_known(tags, texts(c.exec_tags@)) && providers_resolve(tags, facets, c.domain@, Facet::DomainSet)
                && providers_resolve(tags, facets, c.client_ip@, Facet::IpSet),
            None => true,
        },
        PluginArgs::Cache(c) => match c {
            Some(c) => all_known(tags, texts(c.exec_tags@)),
            None => true,
        },
        PluginArgs::DomainSet(c) => c is Some,
        PluginArgs::IpSet(c) => c is Some,
        PluginArgs::If(c) => match c {
            Some(c) => names_resolve(tags, facets, c.cond@, Facet::Condition) && all_known(tags, texts(c.exec_tags@))
                && all_known(tags, texts(c.else_exec@)),
            None => false,
        },
        PluginArgs::Fallback(c) => match c {
            Some(c) => tag_index(tags, c.primary@) is Some && tag_index(tags, c.secondary@) is Some,
            None => false,
        },
        _ => true,
    }
}

/// What a sequence's configuration holds: its child tags.
pub struct SequenceConfig {
    pub exec_tags: Vec<String>,
}

impl Sequence {
    /// Resolves the child tags; no configuration means no children.
    pub fn new(config: &Option<SequenceConfig>, registry: &Registry) -> (r: Result<Sequence, ConfigError>)
        requires
            registry.wf(),
        ensures
            match (config, r) {
                (None, Ok(s)) => s.plugins@.len() == 0,
                (None, Err(_)) => false,
                (Some(c), Ok(s)) => resolves(registry.tag_seq(), texts(c.exec_tags@), s.plugins@),
                (Some(c), Err(e)) => e is PluginNotFound && !all_known(registry.tag_seq(), texts(c.exec_tags@)),
            },
            r matches Ok(s) ==> all_below(s.plugins@, registry.len()),
    {
        match config {
            None => Ok(Sequence { plugins: Vec::new() }),
            Some(c) => match registry.resolve_all(&c.exec_tags) {
                Ok(v) => Ok(Sequence { plugins: v }),
                Err(e) => Err(e),
            },
        }
    }
}

/// What a fallback's configuration holds.
pub struct FallbackConfig {
    pub primary: String,
    pub secondary: String,
}

impl FallbackPlugin {
    /// Resolves both tags; a configuration is required.
    pub fn new(config: &Option<FallbackConfig>, registry: &Registry) -> (r: Result<FallbackPlugin, ConfigError>)
        requires
            registry.wf(),
        ensures
            config is None ==> r matches Err(ConfigError::MissingConfig(_)),
            config matches Some(c) ==> match r {
                Ok(f) => tag_index(registry.tag_seq(), c.primary@) == Some(f.primary as int)
                    && tag_index(registry.tag_seq(), c.secondary@) == Some(f.secondary as int),
                Err(e) => e is PluginNotFound && (tag_index(registry.tag_seq(), c.primary@) is None
                    || tag_index(registry.tag_seq(), c.secondary@) is None),
            },
            r matches Ok(f) ==> f.primary < registry.len() && f.secondary < registry.len(),
    {
        match config {
            None => Err(ConfigError::MissingConfig("fallback".to_string())),
            Some(c) => {
                let primary = match registry.find(c.primary.as_str()) {
                    Some(p) => p,
                    None => return Err(ConfigError::PluginNotFound(c.primary.clone())),
                };
                let secondary = match registry.find(c.secondary.as_str()) {
                    Some(p) => p,
                    None => return Err(ConfigError::PluginNotFound(c.secondary.clone())),
                };
                Ok(FallbackPlugin { primary, secondary })
            },
        }
    }
}

/// What an if-plugin's configuration holds.
pub struct IfConfig {
    pub cond: String,
    pub exec_tags: Vec<String>,
    pub else_exec: Vec<String>,
}

/// The condition tag names a plugin with the condition facet, and every child tag resolves.
pub open spec fn if_accepted(tags: Seq<Seq<char>>, facets: Seq<Option<Facet>>, c: IfConfig) -> bool {
    names_resolve(tags, facets, c.cond@, Facet::Condition) && all_known(tags, texts(c.exec_tags@))
        && all_known(tags, texts(c.else_exec@))
}

/// `f` is the if-plugin the configuration describes: the plugin the condition tag names,
/// and the plugins the child tags name, in order.
pub open spec fn if_from(tags: Seq<Seq<char>>, c: IfConfig, f: IfPlugin) -> bool {
    &&& tag_index(tags, named_tag(c.cond@)) == Some(f.cond as int)
    &&& resolves(tags, texts(c.exec_tags@), f.then_exec@)
    &&& resolves(tags, texts(c.else_exec@), f.else_exec@)
}

impl IfPlugin {
    /// Resolves the condition (with or without `provider:`), which must offer the
    /// condition facet, then both child lists; a configuration is required.
    pub fn new(config: &Option<IfConfig>, registry: &Registry) -> (r: Result<IfPlugin, ConfigError>)
        requires
            registry.wf(),
        ensures
            match config {
                None => r matches Err(ConfigError::MissingConfig(_)),
                Some(c) => (r.is_ok() <==> if_accepted(registry.tag_seq(), registry.facets(), *c)) && (r matches Ok(
                    f,
                ) ==> if_from(registry.tag_seq(), *c, f)),
            },
            r matches Ok(f) ==> f.cond < registry.len() && is_condition(
                registry.plugins@[f.cond as int],
            ) && all_below(f.then_exec@, registry.len()) && all_below(f.else_exec@, registry.len()),
    {
        let c = match config {
            None => return Err(ConfigError::MissingConfig("if".to_string())),
            Some(c) => c,
        };
        let (_, tag) = reference_tag(&c.cond);
        let cond = match registry.find(tag.as_str()) {
            Some(i) => i,
            None => return Err(ConfigError::PluginNotFound(tag)),
        };
        if !registry.as_condition(cond) {
            return Err(ConfigError::NotACondition(tag));
        }
        let then_exec = match registry.resolve_all(&c.exec_tags) {
            Ok(v) => v,
            Err(e) => return Err(e),
        };
        let else_exec = match registry.resolve_all(&c.else_exec) {
            Ok(v) => v,
            Err(e) => return Err(e),
        };
        Ok(IfPlugin { cond, then_exec, else_exec })
    }
}

/// What a matcher's configuration holds.
pub struct MatcherConfig {
    pub domain: Vec<String>,
    pub client_ip: Vec<String>,
    pub exec_tags: Vec<String>,
}

/// Whether the domain provider `p` holds the name `n`.
pub open spec fn provider_holds(p: Plugin, n: Seq<u8>) -> bool {
    match p {
        Plugin::DomainSet(d) => matches_any(n, d.entries()),
        _ => false,
    }
}

/// Whether the address provider `p` holds `ip`.
pub open spec fn ip_provider_holds(p: Plugin, ip: IpAddress) -> bool {
    match p {
        Plugin::IpSet(s) => held_by_any(s.cidrs@, ip),
        _ => false,
    }
}

/// Every child tag resolves, and every `provider:` reference names a plugin with the
/// facet it needs.
pub open spec fn matcher_accepted(tags: Seq<Seq<char>>, facets: Seq<Option<Facet>>, c: MatcherConfig) -> bool {
    &&& all_known(tags, texts(c.exec_tags@))
    &&& providers_resolve(tags, facets, c.domain@, Facet::DomainSet)
    &&& providers_resolve(tags, facets, c.client_ip@, Facet::IpSet)
}

/// `m` is the matcher the configuration describes: its children, its inline domains in
/// order, and the providers its references name, in order.
pub open spec fn matcher_from(tags: Seq<Seq<char>>, c: MatcherConfig, m: Matcher) -> bool {
    &&& resolves(tags, texts(c.exec_tags@), m.plugins@)
    &&& texts(m.domains@) == plain_entries(texts(c.domain@))
    &&& resolves(tags, provider_tags(texts(c.domain@)), m.domain_providers@)
    &&& resolves(tags, provider_tags(texts(c.client_ip@)), m.ip_providers@)
}

/// Resolves the `provider:` references among `refs` to plugins that offer `f`, and hands
/// back the other entries as they are.
fn resolve_refs(refs: &Vec<String>, registry: &Registry, f: Facet) -> (r: Result<(Vec<usize>, Vec<String>), ConfigError>)
    requires
        registry.wf(),
    ensures
        r.is_ok() <==> providers_resolve(registry.tag_seq(), registry.facets(), refs@, f),
        r matches Ok((ps, plain)) ==> {
            &&& resolves(registry.tag_seq(), provider_tags(texts(refs@)), ps@)
            &&& texts(plain@) == plain_entries(texts(refs@))
            &&& all_below(ps@, registry.len())
            &&& forall|j: int| 0 <= j < ps@.len() ==> facet_of(registry.plugins@[#[trigger] ps@[j] as int]) == Some(f)
        },
{
    let ghost d = texts(refs@);
    let mut ps: Vec<usize> = Vec::new();
    let mut plain: Vec<String> = Vec::new();
    let mut i: usize = 0;
    while i < refs.len()
        invariant
            registry.wf(),
            d == texts(refs@),
            i <= refs@.len(),
            resolves(registry.tag_seq(), provider_tags(d.subrange(0, i as int)), ps@),
            texts(plain@) == plain_entries(d.subrange(0, i as int)),
            all_below(ps@, registry.len()),
            forall|j: int| 0 <= j < ps@.len() ==> facet_of(registry.plugins@[#[trigger] ps@[j] as int]) == Some(f),
            forall|j: int|
                0 <= j < i && provider_ref(#[trigger] refs@[j]@) is Some ==> names_resolve(
                    registry.tag_seq(),
                    registry.facets(),
                    refs@[j]@,
                    f,
                ),
        decreases refs@.len() - i,
    {
        let ghost pre = d.subrange(0, i as int);
        assert(d.subrange(0, i + 1).drop_last() =~= pre);
        assert(d.subrange(0, i + 1).last() == refs@[i as int]@);
        let (is_ref, tag) = reference_tag(&refs[i]);
        if is_ref {
            let p = match registry.find(tag.as_str()) {
                Some(p) => p,
                None => {
                    assert(!providers_resolve(registry.tag_seq(), registry.facets(), refs@, f)) by {
                        assert(provider_ref(refs@[i as int]@) is Some);
                    }
                    return Err(ConfigError::PluginNotFound(tag));
                },
            };
            let ok = match (&registry.plugins[p], f) {
                (Plugin::DomainSet(_), Facet::DomainSet) => true,
                (Plugin::IpSet(_), Facet::IpSet) => true,
                (Plugin::Matcher(_), Facet::Condition) => true,
                _ => false,
            };
            assert(registry.facets()[p as int] == facet_of(registry.plugins@[p as int]));
            if !ok {
                assert(!providers_resolve(registry.tag_seq(), registry.facets(), refs@, f)) by {
                    assert(provider_ref(refs@[i as int]@) is Some);
                }
                return match f {
                    Facet::IpSet => Err(ConfigError::NotAnIpSet(tag)),
                    Facet::DomainSet => Err(ConfigError::NotADomainSet(tag)),
                    Facet::Condition => Err(ConfigError::NotACondition(tag)),
                };
            }
            let ghost before = ps@;
            ps.push(p);
            assert(provider_tags(d.subrange(0, i + 1)) == provider_tags(pre).push(tag@));
            assert forall|j: int| 0 <= j < ps@.len() implies tag_index(
                registry.tag_seq(),
                #[trigger] provider_tags(d.subrange(0, i + 1))[j],
            ) == Some(ps@[j] as int) by {
                if j < before.len() {
                    assert(provider_tags(d.subrange(0, i + 1))[j] == provider_tags(pre)[j]);
                }
            }
        } else {
            let ghost before = texts(plain@);
            plain.push(refs[i].clone());
            assert(texts(plain@) =~= before.push(refs@[i as int]@));
            assert(provider_tags(d.subrange(0, i + 1)) == provider_tags(pre));
        }
        i = i + 1;
    }
    assert(d.subrange(0, refs@.len() as int) =~= d);
    Ok((ps, plain))
}

impl Matcher {
    /// Resolves the child tags, then splits `domain` into inline domains and
    /// `provider:` references to domain sets, then takes the `provider:` references of
    /// `client_ip` to ip sets; other `client_ip` entries are ignored. No configuration
    /// means an empty matcher.
    pub fn new(config: &Option<MatcherConfig>, registry: &Registry) -> (r: Result<Matcher, ConfigError>)
        requires
            registry.wf(),
        ensures
            match config {
                None => r matches Ok(m) && m.domains@.len() == 0 && m.domain_providers@.len() == 0
                    && m.ip_providers@.len() == 0 && m.plugins@.len() == 0,
                Some(c) => (r.is_ok() <==> matcher_accepted(registry.tag_seq(), registry.facets(), *c)) && (
                r matches Ok(m) ==> matcher_from(registry.tag_seq(), *c, m)),
            },
            r matches Ok(m) ==> all_below(m.plugins@, registry.len()) && all_below(
                m.domain_providers@,
                registry.len(),
            ) && all_below(m.ip_providers@, registry.len()),
            r matches Ok(m) ==> (forall|j: int|
                0 <= j < m.domain_providers@.len() ==> is_domain_set(
                    registry.plugins@[#[trigger] m.domain_providers@[j] as int],
                )) && (forall|j: int|
                0 <= j < m.ip_providers@.len() ==> is_ip_set(
                    registry.plugins@[#[trigger] m.ip_providers@[j] as int],
                )),
    {
        let c = match config {
            None => {
                return Ok(
                    Matcher {
                        domains: Vec::new(),
                        domain_providers: Vec::new(),
                        ip_providers: Vec::new(),
                        plugins: Vec::new(),
                    },
                )
            },
            Some(c) => c,
        };
        let plugins = match registry.resolve_all(&c.exec_tags) {
            Ok(v) => v,
            Err(e) => return Err(e),
        };
        let (domain_providers, domains) = match resolve_refs(&c.domain, registry, Facet::DomainSet) {
            Ok(x) => x,
            Err(e) => return Err(e),
        };
        let (ip_providers, _) = match resolve_refs(&c.client_ip, registry, Facet::IpSet) {
            Ok(x) => x,
            Err(e) => return Err(e),
        };
        Ok(Matcher { domains, domain_providers, ip_providers, plugins })
    }

    /// Whether the query name (trailing dots removed) is or lies below an inline domain or
    /// is held by a domain provider, or the client address is held by an address provider.
    pub open spec fn holds(&self, registry: &Registry, ctx: &Context) -> bool {
        let q = ctx.request.queries@;
        let n = strip_dots(utf8(q[0].name@));
        (q.len() > 0 && (matches_any(n, texts(self.domains@)) || exists|j: int|
            0 <= j < self.domain_providers@.len() && provider_holds(
                registry.plugins@[#[trigger] self.domain_providers@[j] as int],
                n,
            ))) || exists|j: int|
            0 <= j < self.ip_providers@.len() && ip_provider_holds(
                registry.plugins@[#[trigger] self.ip_providers@[j] as int],
                ctx.client_addr.ip,
            )
    }

    /// Evaluates the disjunction of `holds`.
    pub fn matches(&self, registry: &Registry, ctx: &Context) -> (r: bool)
        requires
            all_below(self.domain_providers@, registry.len()),
            all_below(self.ip_providers@, registry.len()),
        ensures
            r == self.holds(registry, ctx),
    {
        if ctx.request.queries.len() > 0 {
            let b = ctx.request.queries[0].name.as_str().as_bytes();
            let end = stripped_len(b);
            let ghost n = strip_dots(utf8(ctx.request.queries@[0].name@));
            assert(b@.subrange(0, end as int) == n);
            let mut i: usize = 0;
            while i < self.domains.len()
                invariant
                    ctx.request.queries@.len() > 0,
                    n == strip_dots(utf8(ctx.request.queries@[0].name@)),
                    i <= self.domains@.len(),
                    end <= b@.len(),
                    n == b@.subrange(0, end as int),
                    forall|j: int| 0 <= j < i ==> !crate::names::dot_suffix_match(n, #[trigger] utf8(texts(self.domains@)[j])),
                decreases self.domains@.len() - i,
            {
                assert(texts(self.domains@)[i as int] == self.domains@[i as int]@);
                if prefix_matches(b, end, self.domains[i].as_str().as_bytes()) {
                    assert(crate::names::dot_suffix_match(n, utf8(texts(self.domains@)[i as int])));
                    assert(matches_any(n, texts(self.domains@)));
                    assert(self.holds(registry, ctx));
                    return true;
                }
                i = i + 1;
            }
            let mut j: usize = 0;
            while j < self.domain_providers.len()
                invariant
                    ctx.request.queries@.len() > 0,
                    n == strip_dots(utf8(ctx.request.queries@[0].name@)),
                    j <= self.domain_providers@.len(),
                    all_below(self.domain_providers@, registry.len()),
                    end <= b@.len(),
                    n == b@.subrange(0, end as int),
                    forall|k: int| 0 <= k < j ==> !provider_holds(
                        registry.plugins@[#[trigger] self.domain_providers@[k] as int],
                        n,
                    ),
                decreases self.domain_providers@.len() - j,
            {
                let p = self.domain_providers[j];
                match &registry.plugins[p] {
                    Plugin::DomainSet(ds) => {
                        if ds.contains_prefix(b, end) {
                            assert(registry.plugins@[p as int] == Plugin::DomainSet(*ds));
                            assert(provider_holds(registry.plugins@[self.domain_providers@[j as int] as int], n));
                            assert(self.holds(registry, ctx));
                            return true;
                        }
                    },
                    _ => {},
                }
                j = j + 1;
            }
        }
        let ip = ctx.client_addr.ip;
        let mut j: usize = 0;
        while j < self.ip_providers.len()
            invariant
                ip == ctx.client_addr.ip,
                j <= self.ip_providers@.len(),
                all_below(self.ip_providers@, registry.len()),
                forall|k: int| 0 <= k < j ==> !ip_provider_holds(
                    registry.plugins@[#[trigger] self.ip_providers@[k] as int],
                    ip,
                ),
            decreases self.ip_providers@.len() - j,
        {
            let p = self.ip_providers[j];
            match &registry.plugins[p] {
                Plugin::IpSet(s) => {
                    if s.contains(ip) {
                        assert(registry.plugins@[p as int] == Plugin::IpSet(*s));
                        assert(ip_provider_holds(registry.plugins@[self.ip_providers@[j as int] as int], ip));
                        assert(self.holds(registry, ctx));
                        return true;
                    }
                },
                _ => {},
            }
            j = j + 1;
        }
        false
    }
}

/// What a cache's configuration holds.
pub struct CacheConfig {
    pub size: usize,
    pub exec_tags: Vec<String>,
}

/// The capacity of a cache configured without one.
pub const DEFAULT_CACHE_SIZE: usize = 1024;

impl Cache {
    /// Resolves the miss-path tags; responses stay valid 60 seconds. No configuration
    /// means capacity 1024 and no children.
    pub fn new(config: &Option<CacheConfig>, registry: &Registry) -> (r: Result<Cache, ConfigError>)
        requires
            registry.wf(),
        ensures
            r matches Ok(c) ==> c.ttl_ms == crate::cache::CACHE_TTL_MS && all_below(
                c.plugins@,
                registry.len(),
            ),
            config is None ==> (r matches Ok(c) && c.size == DEFAULT_CACHE_SIZE && c.plugins@.len() == 0),
            config matches Some(cf) ==> match r {
                Ok(c) => c.size == cf.size && resolves(registry.tag_seq(), texts(cf.exec_tags@), c.plugins@),
                Err(e) => e is PluginNotFound && !all_known(registry.tag_seq(), texts(cf.exec_tags@)),
            },
    {
        match config {
            None => Ok(Cache { size: DEFAULT_CACHE_SIZE, ttl_ms: crate::cache::CACHE_TTL_MS, plugins: Vec::new() }),
            Some(cf) => match registry.resolve_all(&cf.exec_tags) {
                Ok(v) => Ok(Cache { size: cf.size, ttl_ms: crate::cache::CACHE_TTL_MS, plugins: v }),
                Err(e) => Err(e),
            },
        }
    }
}

/// What a forwarder's configuration holds.
pub struct ForwardConfig {
    pub addr: Option<String>,
    pub upstreams: Option<Vec<String>>,
    pub concurrent: u32,
    pub socks5: Option<String>,
}

/// What a hosts plugin loads: the lines of its files and its inline mappings.
pub struct HostsConfig {
    pub lines: Vec<String>,
    pub hosts: Vec<(String, String)>,
}

/// What a TTL plugin's configuration holds.
pub struct TtlConfig {
    pub min: Option<u32>,
    pub max: Option<u32>,
}

/// The type of a declared plugin with its arguments; `None` where none were given. Data
/// providers carry the lines of their files.
pub enum PluginArgs {
    Forward(Option<ForwardConfig>),
    Sequence(Option<SequenceConfig>),
    Matcher(Option<MatcherConfig>),
    Hosts(Option<HostsConfig>),
    Cache(Option<CacheConfig>),
    DomainSet(Option<Vec<String>>),
    IpSet(Option<Vec<String>>),
    If(Option<IfConfig>),
    Return,
    Reject(Option<u8>),
    System,
    Delay(Option<u64>),
    Fallback(Option<FallbackConfig>),
    Ttl(Option<TtlConfig>),
    /// A type this build does not know, by name.
    Unknown(String),
}

/// One plugin declaration of the configuration.
pub struct PluginDecl {
    pub tag: String,
    pub args: PluginArgs,
}

/// The declaration and the plugin built from it are of the same type.
pub open spec fn same_kind(a: PluginArgs, p: Plugin) -> bool {
    match (a, p) {
        (PluginArgs::Forward(_), Plugin::Forward(_)) => true,
        (PluginArgs::Sequence(_), Plugin::Sequence(_)) => true,
        (PluginArgs::Matcher(_), Plugin::Matcher(_)) => true,
        (PluginArgs::Hosts(_), Plugin::Hosts(_)) => true,
        (PluginArgs::Cache(_), Plugin::Cache(_)) => true,
        (PluginArgs::DomainSet(_), Plugin::DomainSet(_)) => true,
        (PluginArgs::IpSet(_), Plugin::IpSet(_)) => true,
        (PluginArgs::If(_), Plugin::If(_)) => true,
        (PluginArgs::Return, Plugin::Return(_)) => true,
        (PluginArgs::Reject(_), Plugin::Reject(_)) => true,
        (PluginArgs::System, Plugin::System(_)) => true,
        (PluginArgs::Delay(_), Plugin::Delay(_)) => true,
        (PluginArgs::Fallback(_), Plugin::Fallback(_)) => true,
        (PluginArgs::Ttl(_), Plugin::Ttl(_)) => true,
        _ => false,
    }
}

/// A required configuration is missing.
pub open spec fn lacks_config(a: PluginArgs) -> bool {
    match a {
        PluginArgs::Forward(c) => c is None,
        PluginArgs::DomainSet(c) => c is None,
        PluginArgs::IpSet(c) => c is None,
        PluginArgs::If(c) => c is None,
        PluginArgs::Fallback(c) => c is None,
        _ => false,
    }
}

/// `p` is the plugin the declaration's arguments describe, resolved against `tags`.
#[verifier::opaque]
pub open spec fn describes(a: PluginArgs, tags: Seq<Seq<char>>, p: Plugin) -> bool {
    match (a, p) {
        (PluginArgs::Forward(Some(c)), Plugin::Forward(f)) => forward_from(c.addr, c.upstreams, c.concurrent, c.socks5, f),
        (PluginArgs::Sequence(c), Plugin::Sequence(q)) => match c {
            Some(c) => resolves(tags, texts(c.exec_tags@), q.plugins@),
            None => q.plugins@.len() == 0,
        },
        (PluginArgs::Matcher(c), Plugin::Matcher(m)) => match c {
            Some(c) => matcher_from(tags, c, m),
            None => m.domains@.len() == 0 && m.domain_providers@.len() == 0 && m.ip_providers@.len() == 0
                && m.plugins@.len() == 0,
        },
        (PluginArgs::Hosts(c), Plugin::Hosts(h)) => match c {
            Some(c) => h.pairs() == file_pairs(texts(c.lines@)) + inline_pairs(
                c.hosts@.map_values(|q: (String, String)| (q.0@, q.1@)),
            ),
            None => h.pairs().len() == 0,
        },
        (PluginArgs::Cache(c), Plugin::Cache(k)) => k.ttl_ms == crate::cache::CACHE_TTL_MS && match c {
            Some(c) => k.size == c.size && resolves(tags, texts(c.exec_tags@), k.plugins@),
            None => k.size == DEFAULT_CACHE_SIZE && k.plugins@.len() == 0,
        },
        (PluginArgs::DomainSet(Some(l)), Plugin::DomainSet(d)) => d.entries() == line_entries(texts(l@)),
        (PluginArgs::IpSet(Some(l)), Plugin::IpSet(d)) => d.cidrs@ == line_blocks(texts(l@)),
        (PluginArgs::If(Some(c)), Plugin::If(f)) => if_from(tags, c, f),
        (PluginArgs::Return, Plugin::Return(_)) => true,
        (PluginArgs::Reject(c), Plugin::Reject(j)) => j.rcode == code_of(
            match c {
                Some(x) => x,
                None => 5u8,
            },
        ),
        (PluginArgs::System, Plugin::System(_)) => true,
        (PluginArgs::Delay(c), Plugin::Delay(d)) => d.ms == match c {
            Some(x) => x,
            None => 0,
        },
        (PluginArgs::Fallback(Some(c)), Plugin::Fallback(f)) => tag_index(tags, c.primary@) == Some(f.primary as int)
            && tag_index(tags, c.secondary@) == Some(f.secondary as int),
        (PluginArgs::Ttl(c), Plugin::Ttl(t)) => match c {
            Some(c) => t.min == (match c.min {
                Some(m) => m,
                None => 0,
            }) && t.max == (match c.max {
                Some(m) => m,
                None => u32::MAX,
            }),
            None => t.min == 0 && t.max == u32::MAX,
        },
        _ => false,
    }
}

/// The tags of the declarations of known types, in order.
pub open spec fn known_tags(decls: Seq<PluginDecl>) -> Seq<Seq<char>>
    decreases decls.len(),
{
    if decls.len() == 0 {
        Seq::empty()
    } else if decls.last().args is Unknown {
        known_tags(decls.drop_last())
    } else {
        known_tags(decls.drop_last()).push(decls.last().tag@)
    }
}

/// Tags that resolve are known.
pub proof fn lemma_resolves_known(tags: Seq<Seq<char>>, wanted: Seq<Seq<char>>, idx: Seq<usize>)
    requires
        resolves(tags, wanted, idx),
    ensures
        all_known(tags, wanted),
{
    assert forall|i: int| 0 <= i < wanted.len() implies tag_index(tags, #[trigger] wanted[i]) is Some by {
        assert(tag_index(tags, wanted[i]) == Some(idx[i] as int));
    }
}

/// Builds the plugin one declaration asks for against the plugins declared before it;
/// nothing for an unknown type.
pub fn build_plugin(args: &PluginArgs, registry: &Registry) -> (r: Result<Option<Plugin>, ConfigError>)
    requires
        registry.wf(),
    ensures
        args is Unknown ==> r matches Ok(None),
        r matches Ok(None) ==> args is Unknown,
        r matches Ok(Some(p)) ==> same_kind(*args, p) && refs_below(p, registry.len())
            && registry.facets_ok(p) && (p matches Plugin::Forward(f) ==> f.wf()),
        r.is_ok() <==> accepts(*args, registry.tag_seq(), registry.facets()),
        r matches Ok(Some(p)) ==> describes(*args, registry.tag_seq(), p),
        lacks_config(*args) ==> r matches Err(ConfigError::MissingConfig(_)),
{
    reveal(accepts);
    reveal(describes);
    match args {
        PluginArgs::Forward(c) => match c {
            None => Err(ConfigError::MissingConfig("forward".to_string())),
            Some(c) => match Forward::new(&c.addr, &c.upstreams, c.concurrent, &c.socks5) {
                Ok(f) => {
                    let ghost g = given_texts(c.addr, c.upstreams);
                    assert forall|k: int| 0 <= k < g.len() implies (#[trigger] upstream_of(g[k])) is Ok by {
                        assert(upstream_of(g[k]) == Ok::<UpstreamModel, ConfigError>(f.upstreams@[k]@));
                    }
                    Ok(Some(Plugin::Forward(f)))
                },
                Err(e) => Err(e),
            },
        },
        PluginArgs::Sequence(c) => match Sequence::new(c, registry) {
            Ok(s) => {
                proof {
                    if let Some(cf) = c {
                        lemma_resolves_known(registry.tag_seq(), texts(cf.exec_tags@), s.plugins@);
                    }
                }
                Ok(Some(Plugin::Sequence(s)))
            },
            Err(e) => Err(e),
        },
        PluginArgs::Matcher(c) => match Matcher::new(c, registry) {
            Ok(m) => Ok(Some(Plugin::Matcher(m))),
            Err(e) => Err(e),
        },
        PluginArgs::Hosts(c) => match c {
            None => Ok(Some(Plugin::Hosts(Hosts::new(&Vec::new(), &Vec::new())))),
            Some(h) => Ok(Some(Plugin::Hosts(Hosts::new(&h.lines, &h.hosts)))),
        },
        PluginArgs::Cache(c) => match Cache::new(c, registry) {
            Ok(k) => {
                proof {
                    if let Some(cf) = c {
                        lemma_resolves_known(registry.tag_seq(), texts(cf.exec_tags@), k.plugins@);
                    }
                }
                Ok(Some(Plugin::Cache(k)))
            },
            Err(e) => Err(e),
        },
        PluginArgs::DomainSet(c) => match c {
            None => Err(ConfigError::MissingConfig("domain_set".to_string())),
            Some(lines) => Ok(Some(Plugin::DomainSet(DomainSetPlugin::new(lines)))),
        },
        PluginArgs::IpSet(c) => match c {
            None => Err(ConfigError::MissingConfig("ip_set".to_string())),
            Some(lines) => Ok(Some(Plugin::IpSet(IpSetPlugin::new(lines)))),
        },
        PluginArgs::If(c) => match IfPlugin::new(c, registry) {
            Ok(f) => {
                assert(registry.facets()[f.cond as int] == facet_of(registry.plugins@[f.cond as int]));
                Ok(Some(Plugin::If(f)))
            },
            Err(e) => Err(e),
        },
        PluginArgs::Return => Ok(Some(Plugin::Return(ReturnPlugin::new()))),
        PluginArgs::Reject(c) => Ok(Some(Plugin::Reject(RejectPlugin::new(*c)))),
        PluginArgs::System => Ok(Some(Plugin::System(System::new()))),
        PluginArgs::Delay(c) => Ok(Some(Plugin::Delay(DelayPlugin::new(*c)))),
        PluginArgs::Fallback(c) => match FallbackPlugin::new(c, registry) {
            Ok(f) => Ok(Some(Plugin::Fallback(f))),
            Err(e) => Err(e),
        },
        PluginArgs::Ttl(c) => match c {
            None => Ok(Some(Plugin::Ttl(TtlPlugin::new(None, None)))),
            Some(t) => Ok(Some(Plugin::Ttl(TtlPlugin::new(t.min, t.max)))),
        },
        PluginArgs::Unknown(_) => Ok(None),
    }
}

/// The arguments of the declarations of known types, in order.
pub open spec fn known_args(decls: Seq<PluginDecl>) -> Seq<PluginArgs>
    decreases decls.len(),
{
    if decls.len() == 0 {
        Seq::empty()
    } else if decls.last().args is Unknown {
        known_args(decls.drop_last())
    } else {
        known_args(decls.drop_last()).push(decls.last().args)
    }
}

/// The facets of the plugins that declarations ask for.
pub open spec fn declared_facets(args: Seq<PluginArgs>) -> Seq<Option<Facet>> {
    args.map_values(|a: PluginArgs| facet_of_args(a))
}

/// Every declaration of a known type is built without error against those before it.
pub open spec fn all_accepted(decls: Seq<PluginDecl>) -> bool {
    forall|k: int|
        0 <= k < decls.len() ==> (#[trigger] decls[k]).args is Unknown || accepts(
            decls[k].args,
            known_tags(decls.subrange(0, k)),
            declared_facets(known_args(decls.subrange(0, k))),
        )
}

/// Appending a plugin built against a well-formed registry keeps it well formed, and the
/// description of every plugin.
proof fn lemma_registry_push(old_reg: Registry, reg: Registry, args_pre: Seq<PluginArgs>, a: PluginArgs, p: Plugin, t: String)
    requires
        old_reg.wf(),
        reg.tags@ == old_reg.tags@.push(t),
        reg.plugins@ == old_reg.plugins@.push(p),
        same_kind(a, p),
        refs_below(p, old_reg.len()),
        old_reg.facets_ok(p),
        p matches Plugin::Forward(f) ==> f.wf(),
        describes(a, old_reg.tag_seq(), p),
        old_reg.len() == args_pre.len(),
        forall|j: int|
            0 <= j < old_reg.len() ==> describes(args_pre[j], old_reg.tag_seq().subrange(0, j), #[trigger] old_reg.plugins@[j]),
    ensures
        reg.wf(),
        reg.len() == args_pre.len() + 1,
        reg.tag_seq() == old_reg.tag_seq().push(t@),
        old_reg.facets() == declared_facets(args_pre) ==> reg.facets() == declared_facets(args_pre.push(a)),
        forall|j: int|
            0 <= j < reg.len() ==> describes(args_pre.push(a)[j], reg.tag_seq().subrange(0, j), #[trigger] reg.plugins@[j]),
{
    let n = old_reg.len();
    assert(facet_of(p) == facet_of_args(a));
    assert(reg.facets() =~= old_reg.facets().push(facet_of(p)));
    assert(declared_facets(args_pre.push(a)) =~= declared_facets(args_pre).push(facet_of_args(a)));
    assert forall|j: int| 0 <= j < reg.len() implies describes(
        args_pre.push(a)[j],
        reg.tag_seq().subrange(0, j),
        #[trigger] reg.plugins@[j],
    ) by {
        if j < n {
            assert(reg.plugins@[j] == old_reg.plugins@[j]);
            assert(reg.tag_seq().subrange(0, j) =~= old_reg.tag_seq().subrange(0, j));
        } else {
            assert(reg.tag_seq().subrange(0, j) =~= old_reg.tag_seq());
        }
    }
    assert(reg.tag_seq() =~= old_reg.tag_seq().push(t@));
    assert forall|k: int| 0 <= k < n implies reg.plugins@[k] == old_reg.plugins@[k] by {}
    assert forall|k: int| 0 <= k < reg.len() implies (#[trigger] reg.plugins@[k] matches Plugin::Forward(f) ==> f.wf()) by {
        if k < n {
            assert(reg.plugins@[k] == old_reg.plugins@[k]);
        }
    }
    assert forall|k: int| 0 <= k < reg.len() implies refs_below(#[trigger] reg.plugins@[k], k) by {
        if k < n {
            assert(reg.plugins@[k] == old_reg.plugins@[k]);
        }
    }
    assert forall|k: int| 0 <= k < reg.len() implies reg.facets_ok(#[trigger] reg.plugins@[k]) by {
        let q = reg.plugins@[k];
        if k < n {
            assert(q == old_reg.plugins@[k]);
            assert(old_reg.facets_ok(q));
            assert(refs_below(q, k));
        } else {
            assert(q == p);
        }
        match q {
            Plugin::If(f) => {
                assert(reg.plugins@[f.cond as int] == old_reg.plugins@[f.cond as int]);
            },
            Plugin::Matcher(m) => {
                assert forall|j: int| 0 <= j < m.domain_providers@.len() implies is_domain_set(
                    reg.plugins@[#[trigger] m.domain_providers@[j] as int],
                ) by {
                    assert(m.domain_providers@[j] < n);
                    assert(reg.plugins@[m.domain_providers@[j] as int] == old_reg.plugins@[m.domain_providers@[j] as int]);
                }
                assert forall|j: int| 0 <= j < m.ip_providers@.len() implies is_ip_set(
                    reg.plugins@[#[trigger] m.ip_providers@[j] as int],
                ) by {
                    assert(m.ip_providers@[j] < n);
                    assert(reg.plugins@[m.ip_providers@[j] as int] == old_reg.plugins@[m.ip_providers@[j] as int]);
                }
            },
            _ => {},
        }
    }
}

/// Builds the registry in declaration order, each plugin against those declared before
/// it; declarations of unknown types are skipped. The first refused declaration ends it.
#[verifier::rlimit(100)]
pub fn create_plugin_registry(decls: &Vec<PluginDecl>) -> (r: Result<Registry, ConfigError>)
    ensures
        r matches Ok(reg) ==> reg.wf() && reg.tag_seq() == known_tags(decls@),
        r matches Ok(reg) ==> reg.len() == known_args(decls@).len() && forall|j: int|
            0 <= j < reg.len() ==> describes(known_args(decls@)[j], reg.tag_seq().subrange(0, j), #[trigger] reg.plugins@[j]),
        r.is_ok() <==> all_accepted(decls@),
{
    let mut reg = Registry::new();
    let mut i: usize = 0;
    while i < decls.len()
        invariant
            i <= decls@.len(),
            reg.wf(),
            reg.tag_seq() == known_tags(decls@.subrange(0, i as int)),
            reg.facets() == declared_facets(known_args(decls@.subrange(0, i as int))),
            reg.len() == known_args(decls@.subrange(0, i as int)).len(),
            forall|j: int|
                0 <= j < reg.len() ==> describes(
                    known_args(decls@.subrange(0, i as int))[j],
                    reg.tag_seq().subrange(0, j),
                    #[trigger] reg.plugins@[j],
                ),
            forall|k: int|
                0 <= k < i ==> (#[trigger] decls@[k]).args is Unknown || accepts(
                    decls@[k].args,
                    known_tags(decls@.subrange(0, k)),
                    declared_facets(known_args(decls@.subrange(0, k))),
                ),
        decreases decls@.len() - i,
    {
        let d = &decls[i];
        assert(decls@.subrange(0, i + 1).drop_last() =~= decls@.subrange(0, i as int));
        assert(decls@.subrange(0, i + 1).last() == decls@[i as int]);
        let ghost pre = decls@.subrange(0, i as int);
        assert(decls@.subrange(0, i + 1).drop_last() =~= pre);
        match build_plugin(&d.args, &reg) {
            Err(e) => {
                assert(!all_accepted(decls@)) by {
                    if all_accepted(decls@) {
                        assert(decls@[i as int].args is Unknown || accepts(
                            decls@[i as int].args,
                            known_tags(pre),
                            declared_facets(known_args(pre)),
                        ));
                    }
                }
                return Err(e);
            },
            Ok(None) => {
                assert(known_args(decls@.subrange(0, i + 1)) == known_args(pre));
            },
            Ok(Some(p)) => {
                let ghost old_reg = reg;
                let ghost args_pre = known_args(pre);
                reg.tags.push(d.tag.clone());
                reg.plugins.push(p);
                assert(known_args(decls@.subrange(0, i + 1)) == args_pre.push(d.args));
                proof {
                    lemma_registry_push(old_reg, reg, args_pre, d.args, p, d.tag);
                }
            },
        }
        i = i + 1;
    }
    assert(decls@.subrange(0, decls@.len() as int) =~= decls@);
    Ok(reg)
}

/// The entry plugin: the one the entry tag names, or `main` where the tag is empty.
pub fn get_entry_plugin(entry: &str, registry: &Registry) -> (r: Result<usize, ConfigError>)
    requires
        registry.wf(),
    ensures
        entry@.len() > 0 ==> match r {
            Ok(i) => tag_index(registry.tag_seq(), entry@) == Some(i as int),
            Err(e) => tag_index(registry.tag_seq(), entry@) is None && e is EntryNotFound,
        },
        entry@.len() == 0 ==> match r {
            Ok(i) => tag_index(registry.tag_seq(), main_tag()) == Some(i as int),
            Err(e) => tag_index(registry.tag_seq(), main_tag()) is None && e is EntryNotFound,
        },
        r matches Ok(i) ==> i < registry.len(),
{
    if entry.is_empty() {
        let main = main_name();
        match registry.find(main.as_str()) {
            Some(i) => Ok(i),
            None => Err(ConfigError::EntryNotFound(main)),
        }
    } else {
        match registry.find(entry) {
            Some(i) => Ok(i),
            None => Err(ConfigError::EntryNotFound(entry.to_owned())),
        }
    }
}

/// The characters of `main`, the entry tag taken when none is configured.
pub open spec fn main_tag() -> Seq<char> {
    seq!['m', 'a', 'i', 'n']
}

fn main_name() -> (r: String)
    ensures
        r@ == main_tag(),
{
    let s = "main";
    proof {
        reveal_strlit("main");
    }
    assert(s@ =~= main_tag());
    s.to_owned()
}

} // verus!
