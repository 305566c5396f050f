use clean_dns::cache::{cache_key, CacheTable};
use clean_dns::context::Context;
use clean_dns::message::{
    DnsMessage, IpAddress, Question, RData, Record, SocketAddress, CLASS_IN, RCODE_NX_DOMAIN, TYPE_A,
};
use clean_dns::pipeline::{Action, Event, PluginError, Run};
use clean_dns::registry::{
    create_plugin_registry, get_entry_plugin, CacheConfig, FallbackConfig, ForwardConfig, HostsConfig, IfConfig,
    MatcherConfig, PluginArgs, PluginDecl, Registry, SequenceConfig,
};
use clean_dns::forward::ConfigError;
use clean_dns::server::{finish_query, record_query};
use clean_dns::statistics::Statistics;

fn decl(tag: &str, args: PluginArgs) -> PluginDecl {
    PluginDecl { tag: tag.to_string(), args }
}

fn tags(v: &[&str]) -> Vec<String> {
    v.iter().map(|s| s.to_string()).collect()
}

fn query(name: &str, id: u16) -> DnsMessage {
    let mut m = DnsMessage::new();
    m.header.id = id;
    m.header.recursion_desired = true;
    m.queries.push(Question { name: name.to_string(), qtype: TYPE_A, qclass: CLASS_IN });
    m
}

fn client() -> SocketAddress {
    SocketAddress { ip: IpAddress::V4(u32::from_be_bytes([127, 0, 0, 1])), port: 1234 }
}

fn a_answer(request: &DnsMessage, ip: [u8; 4]) -> DnsMessage {
    let mut m = DnsMessage::new();
    m.header = request.header;
    m.header.is_response = true;
    m.queries.push(request.queries[0].clone());
    m.answers.push(Record {
        name: request.queries[0].name.clone(),
        rtype: TYPE_A,
        rclass: CLASS_IN,
        ttl: 30,
        data: RData::A(u32::from_be_bytes(ip)),
    });
    m
}

/// What one run did: its result, its final context, the sleeps and exchanges it asked for.
struct Outcome {
    result: Result<(), PluginError>,
    ctx: Context,
    sleeps: Vec<u64>,
    exchanges: Vec<(usize, Vec<usize>)>,
}

/// Runs the pipeline the way the server does, answering exchanges with `reply`.
fn drive(
    reg: &Registry,
    entry: usize,
    request: DnsMessage,
    cache: &mut CacheTable,
    stats: &mut Statistics,
    now: u64,
    reply: &dyn Fn(&DnsMessage) -> Option<DnsMessage>,
) -> Outcome {
    record_query(stats, &request, 1_000);
    let mut run = Run::new(entry, Context::new(client(), request));
    let mut event = Event::Resume;
    let mut sleeps = Vec::new();
    let mut exchanges = Vec::new();
    for _ in 0..10_000 {
        match run.step(reg, event, cache, stats, now, 1_000) {
            Action::Continue => event = Event::Resume,
            Action::Sleep(ms) => {
                sleeps.push(ms);
                event = Event::Slept;
            },
            Action::Exchange { plugin, picks } => {
                exchanges.push((plugin, picks));
                event = Event::Exchanged(reply(&run.ctx.request));
            },
            Action::Resolve(_) => event = Event::Resolved(None),
            Action::Finished(result) => {
                finish_query(stats, &run.ctx);
                return Outcome { result, ctx: run.ctx, sleeps, exchanges };
            },
        }
    }
    panic!("run did not finish");
}

fn no_reply(_: &DnsMessage) -> Option<DnsMessage> {
    None
}

fn delay(ms: u64) -> PluginArgs {
    PluginArgs::Delay(Some(ms))
}

fn failing_forward() -> PluginArgs {
    PluginArgs::Forward(Some(ForwardConfig {
        addr: Some("192.0.2.1:53".to_string()),
        upstreams: None,
        concurrent: 1,
        socks5: None,
    }))
}

#[test]
fn test_sequence_execution() {
    let reg = create_plugin_registry(&vec![
        decl("first", delay(1)),
        decl("second", delay(2)),
        decl("seq", PluginArgs::Sequence(Some(SequenceConfig { exec_tags: tags(&["first", "second"]) }))),
    ])
    .unwrap();
    let entry = get_entry_plugin("seq", &reg).unwrap();
    let out = drive(&reg, entry, DnsMessage::new(), &mut CacheTable::new(), &mut Statistics::new(), 0, &no_reply);
    assert_eq!(out.sleeps, vec![1, 2]);
    assert!(out.result.is_ok());
}

#[test]
fn sequence_stops_once_abort_is_set() {
    let reg = create_plugin_registry(&vec![
        decl("first", delay(1)),
        decl("stop", PluginArgs::Return),
        decl("second", delay(2)),
        decl("main", PluginArgs::Sequence(Some(SequenceConfig { exec_tags: tags(&["first", "stop", "second", "first"]) }))),
    ])
    .unwrap();
    let entry = get_entry_plugin("", &reg).unwrap();
    let out = drive(&reg, entry, DnsMessage::new(), &mut CacheTable::new(), &mut Statistics::new(), 0, &no_reply);
    assert_eq!(out.sleeps, vec![1]);
    assert!(out.ctx.abort);
    assert!(out.ctx.response.is_none());
}

#[test]
fn sequence_error_stops_and_propagates() {
    let reg = create_plugin_registry(&vec![
        decl("bad", failing_forward()),
        decl("second", delay(2)),
        decl("main", PluginArgs::Sequence(Some(SequenceConfig { exec_tags: tags(&["bad", "second"]) }))),
    ])
    .unwrap();
    let out = drive(&reg, 2, query("a.com.", 1), &mut CacheTable::new(), &mut Statistics::new(), 0, &no_reply);
    assert_eq!(out.result, Err(PluginError::Upstream));
    assert!(out.sleeps.is_empty());
}

#[test]
fn test_delay_plugin() {
    let reg = create_plugin_registry(&vec![decl("d", delay(50))]).unwrap();
    let out = drive(&reg, 0, DnsMessage::new(), &mut CacheTable::new(), &mut Statistics::new(), 0, &no_reply);
    assert!(out.sleeps[0] >= 40);
    let zero = create_plugin_registry(&vec![decl("d", PluginArgs::Delay(None))]).unwrap();
    let out = drive(&zero, 0, DnsMessage::new(), &mut CacheTable::new(), &mut Statistics::new(), 0, &no_reply);
    assert!(out.sleeps.is_empty());
}

fn fallback_registry(primary: PluginArgs) -> Registry {
    create_plugin_registry(&vec![
        decl("first", primary),
        decl("second", delay(2)),
        decl(
            "fb",
            PluginArgs::Fallback(Some(FallbackConfig { primary: "first".to_string(), secondary: "second".to_string() })),
        ),
    ])
    .unwrap()
}

#[test]
fn test_fallback_success() {
    let reg = fallback_registry(delay(1));
    let out = drive(&reg, 2, DnsMessage::new(), &mut CacheTable::new(), &mut Statistics::new(), 0, &no_reply);
    assert!(out.sleeps.contains(&1));
    assert!(!out.sleeps.contains(&2));
}

#[test]
fn test_fallback_failure() {
    let reg = fallback_registry(failing_forward());
    let out = drive(&reg, 2, query("a.com.", 1), &mut CacheTable::new(), &mut Statistics::new(), 0, &no_reply);
    assert_eq!(out.exchanges.len(), 1);
    assert!(out.sleeps.contains(&2));
    assert!(out.result.is_ok());
}

fn if_registry(domain: &str) -> Registry {
    create_plugin_registry(&vec![
        decl(
            "cond",
            PluginArgs::Matcher(Some(MatcherConfig { domain: vec![domain.to_string()], client_ip: vec![], exec_tags: vec![] })),
        ),
        decl("exec", delay(1)),
        decl("else_exec", delay(2)),
        decl(
            "if",
            PluginArgs::If(Some(IfConfig {
                cond: "cond".to_string(),
                exec_tags: tags(&["exec"]),
                else_exec: tags(&["else_exec"]),
            })),
        ),
    ])
    .unwrap()
}

#[test]
fn test_if_plugin_true() {
    let reg = if_registry("match.com");
    let out = drive(&reg, 3, query("match.com.", 1), &mut CacheTable::new(), &mut Statistics::new(), 0, &no_reply);
    assert_eq!(out.sleeps, vec![1]);
}

#[test]
fn test_if_plugin_false() {
    let reg = if_registry("match.com");
    let out = drive(&reg, 3, query("other.com.", 1), &mut CacheTable::new(), &mut Statistics::new(), 0, &no_reply);
    assert!(!out.sleeps.contains(&1));
    assert!(out.sleeps.contains(&2));
}

#[test]
fn test_cache_miss_hit() {
    let reg = create_plugin_registry(&vec![decl("cache", PluginArgs::Cache(None))]).unwrap();
    let mut cache = CacheTable::new();
    let mut stats = Statistics::new();

    let out = drive(&reg, 0, query("example.com.", 123), &mut cache, &mut stats, 0, &no_reply);
    assert!(out.ctx.response.is_none());

    let request = query("example.com.", 123);
    let key = cache_key(&request).unwrap();
    let response = a_answer(&request, [1, 2, 3, 4]);
    cache.insert(0, key, response, 100);

    let out = drive(&reg, 0, query("example.com.", 123), &mut cache, &mut stats, 60, &no_reply);
    assert!(out.ctx.response.is_some());
    assert_eq!(out.ctx.response.unwrap().answers.len(), 1);
}

#[test]
fn cache_entry_expires() {
    let reg = create_plugin_registry(&vec![
        decl("rejector", PluginArgs::Reject(Some(3))),
        decl("cache", PluginArgs::Cache(Some(CacheConfig { size: 8, exec_tags: tags(&["rejector"]) }))),
    ])
    .unwrap();
    let mut cache = CacheTable::new();
    let mut stats = Statistics::new();
    drive(&reg, 1, query("x.com.", 1), &mut cache, &mut stats, 1_000, &no_reply);
    let key = cache_key(&query("x.com.", 1)).unwrap();
    assert!(cache.lookup(1, &key, 60_999).is_some());
    assert!(cache.lookup(1, &key, 61_000).is_none());
    assert!(cache.entries.is_empty());
}

fn build_main_with(plugins: Vec<PluginDecl>) -> (Registry, usize) {
    let reg = create_plugin_registry(&plugins).unwrap();
    let entry = get_entry_plugin("main", &reg).unwrap();
    (reg, entry)
}

#[test]
fn reject_chain_scenario() {
    let (reg, entry) = build_main_with(vec![
        decl("rejector", PluginArgs::Reject(Some(3))),
        decl("main", PluginArgs::Sequence(Some(SequenceConfig { exec_tags: tags(&["rejector"]) }))),
    ]);
    let mut stats = Statistics::new();
    let out = drive(&reg, entry, query("example.com.", 1234), &mut CacheTable::new(), &mut stats, 0, &no_reply);
    let m = out.ctx.response.unwrap();
    assert_eq!(m.header.id, 1234);
    assert_eq!(m.header.response_code, RCODE_NX_DOMAIN);
    assert_eq!(m.answers.len(), 0);
    let e = stats.get("example.com.").unwrap();
    assert_eq!(e.count, 1);
    assert!(e.ips.is_empty());
}

#[test]
fn hosts_match_scenario() {
    let (reg, entry) = build_main_with(vec![decl(
        "main",
        PluginArgs::Hosts(Some(HostsConfig {
            lines: vec![],
            hosts: vec![("entry.local".to_string(), "5.6.7.8".to_string())],
        })),
    )]);
    let out = drive(&reg, entry, query("entry.local.", 7), &mut CacheTable::new(), &mut Statistics::new(), 0, &no_reply);
    let m = out.ctx.response.unwrap();
    assert_eq!(m.answers.len(), 1);
    assert!(matches!(m.answers[0].data, RData::A(x) if x == u32::from_be_bytes([5, 6, 7, 8])));
    assert_eq!(m.answers[0].ttl, 60);
}

#[test]
fn cache_hit_scenario() {
    let (reg, entry) = build_main_with(vec![
        decl("rejector", PluginArgs::Reject(Some(3))),
        decl("main", PluginArgs::Cache(Some(CacheConfig { size: 16, exec_tags: tags(&["rejector"]) }))),
    ]);
    let mut cache = CacheTable::new();
    let mut stats = Statistics::new();
    let first = drive(&reg, entry, query("x.com.", 1), &mut cache, &mut stats, 5, &no_reply);
    assert!(first.ctx.abort);
    let second = drive(&reg, entry, query("x.com.", 2), &mut cache, &mut stats, 6, &no_reply);
    assert!(!second.ctx.abort);
    let (a, b) = (first.ctx.response.unwrap(), second.ctx.response.unwrap());
    assert_eq!((a.header.id, b.header.id), (1, 2));
    assert_eq!(b.header.response_code, RCODE_NX_DOMAIN);
    let mut b_as_a = b.clone();
    b_as_a.header.id = 1;
    assert_eq!(format!("{:?}", a), format!("{:?}", b_as_a));
    let e = stats.get("x.com.").unwrap();
    assert_eq!((e.count, e.cache_hits), (2, 1));
}

#[test]
fn fallback_scenario() {
    let (reg, entry) = build_main_with(vec![
        decl("alwaysfail", failing_forward()),
        decl("rejector", PluginArgs::Reject(Some(3))),
        decl(
            "main",
            PluginArgs::Fallback(Some(FallbackConfig {
                primary: "alwaysfail".to_string(),
                secondary: "rejector".to_string(),
            })),
        ),
    ]);
    let out = drive(&reg, entry, query("any.com.", 3), &mut CacheTable::new(), &mut Statistics::new(), 0, &no_reply);
    assert_eq!(out.ctx.response.unwrap().header.response_code, RCODE_NX_DOMAIN);
    assert!(out.result.is_ok());
}

#[test]
fn if_branch_scenario() {
    let (reg, entry) = build_main_with(vec![
        decl(
            "evil",
            PluginArgs::Matcher(Some(MatcherConfig { domain: vec!["evil.com".to_string()], client_ip: vec![], exec_tags: vec![] })),
        ),
        decl("rejector", PluginArgs::Reject(Some(3))),
        decl(
            "good",
            PluginArgs::Hosts(Some(HostsConfig { lines: vec!["1.1.1.1 good.com".to_string()], hosts: vec![] })),
        ),
        decl(
            "main",
            PluginArgs::If(Some(IfConfig {
                cond: "provider:evil".to_string(),
                exec_tags: tags(&["rejector"]),
                else_exec: tags(&["good"]),
            })),
        ),
    ]);
    let out = drive(&reg, entry, query("evil.com.", 1), &mut CacheTable::new(), &mut Statistics::new(), 0, &no_reply);
    assert_eq!(out.ctx.response.unwrap().header.response_code, RCODE_NX_DOMAIN);
    let out = drive(&reg, entry, query("good.com.", 2), &mut CacheTable::new(), &mut Statistics::new(), 0, &no_reply);
    let m = out.ctx.response.unwrap();
    assert!(matches!(m.answers[0].data, RData::A(x) if x == u32::from_be_bytes([1, 1, 1, 1])));
}

#[test]
fn socks_tunnel_scenario() {
    let (reg, entry) = build_main_with(vec![decl(
        "main",
        PluginArgs::Forward(Some(ForwardConfig {
            addr: None,
            upstreams: Some(vec!["1.1.1.1:53".to_string()]),
            concurrent: 1,
            socks5: Some("127.0.0.1:1080".to_string()),
        })),
    )]);
    let mut stats = Statistics::new();
    let reply = |r: &DnsMessage| Some(a_answer(r, [1, 2, 3, 4]));
    let out = drive(&reg, entry, query("proxied.com.", 5), &mut CacheTable::new(), &mut stats, 0, &reply);
    assert_eq!(out.exchanges, vec![(0, vec![0])]);
    assert!(out.ctx.is_remote);
    let m = out.ctx.response.unwrap();
    assert!(matches!(m.answers[0].data, RData::A(x) if x == u32::from_be_bytes([1, 2, 3, 4])));
    let e = stats.get("proxied.com.").unwrap();
    assert!(e.ips.contains(&IpAddress::V4(u32::from_be_bytes([1, 2, 3, 4]))));
    assert!(e.last_resolved_remote);
}

#[test]
fn forward_without_proxy_is_not_remote_and_skips_when_answered() {
    let (reg, entry) = build_main_with(vec![
        decl("fwd", PluginArgs::Forward(Some(ForwardConfig {
            addr: Some("9.9.9.9:53".to_string()),
            upstreams: Some(vec!["1.1.1.1:53".to_string(), "8.8.8.8:53".to_string()]),
            concurrent: 2,
            socks5: None,
        }))),
        decl("rejector", PluginArgs::Reject(Some(5))),
        decl("tail", PluginArgs::Sequence(Some(SequenceConfig { exec_tags: tags(&["fwd"]) }))),
        decl("main", PluginArgs::Matcher(Some(MatcherConfig { domain: vec!["x.com".to_string()], client_ip: vec![], exec_tags: tags(&["fwd", "tail"]) }))),
    ]);
    let reply = |r: &DnsMessage| Some(a_answer(r, [9, 9, 9, 9]));
    let out = drive(&reg, entry, query("x.com.", 5), &mut CacheTable::new(), &mut Statistics::new(), 0, &reply);
    assert_eq!(out.exchanges.len(), 1);
    assert_eq!(out.exchanges[0].1.len(), 2);
    assert!(!out.ctx.is_remote);
    assert_eq!(out.ctx.response.unwrap().header.id, 5);
}

#[test]
fn configuration_errors() {
    let missing = create_plugin_registry(&vec![decl(
        "main",
        PluginArgs::Sequence(Some(SequenceConfig { exec_tags: tags(&["later"]) })),
    )]);
    assert!(matches!(missing, Err(ConfigError::PluginNotFound(t)) if t == "later"));
    let not_cond = create_plugin_registry(&vec![
        decl("d", delay(1)),
        decl("if", PluginArgs::If(Some(IfConfig { cond: "d".to_string(), exec_tags: vec![], else_exec: vec![] }))),
    ]);
    assert!(matches!(not_cond, Err(ConfigError::NotACondition(_))));
    let not_set = create_plugin_registry(&vec![
        decl("d", delay(1)),
        decl("m", PluginArgs::Matcher(Some(MatcherConfig { domain: vec!["provider:d".to_string()], client_ip: vec![], exec_tags: vec![] }))),
    ]);
    assert!(matches!(not_set, Err(ConfigError::NotADomainSet(_))));
    assert!(matches!(create_plugin_registry(&vec![decl("f", PluginArgs::Fallback(None))]), Err(ConfigError::MissingConfig(_))));
    let skipped = create_plugin_registry(&vec![decl("x", PluginArgs::Unknown("weird".to_string())), decl("r", PluginArgs::Return)]).unwrap();
    assert_eq!(skipped.tags, vec!["r".to_string()]);
    assert!(matches!(get_entry_plugin("", &skipped), Err(ConfigError::EntryNotFound(_))));
    assert!(matches!(get_entry_plugin("nope", &skipped), Err(ConfigError::EntryNotFound(_))));
    assert_eq!(get_entry_plugin("r", &skipped).unwrap(), 0);
}

#[test]
fn providers_through_a_matcher() {
    let (reg, entry) = build_main_with(vec![
        decl("ads", PluginArgs::DomainSet(Some(vec!["ads.example".to_string()]))),
        decl("lan", PluginArgs::IpSet(Some(vec!["10.0.0.0/8".to_string()]))),
        decl("rejector", PluginArgs::Reject(Some(3))),
        decl("main", PluginArgs::Matcher(Some(MatcherConfig {
            domain: vec!["provider:ads".to_string()],
            client_ip: vec!["provider:lan".to_string(), "1.2.3.4".to_string()],
            exec_tags: tags(&["rejector"]),
        }))),
    ]);
    let out = drive(&reg, entry, query("x.ads.example.", 1), &mut CacheTable::new(), &mut Statistics::new(), 0, &no_reply);
    assert!(out.ctx.response.is_some());
    let out = drive(&reg, entry, query("clean.example.", 1), &mut CacheTable::new(), &mut Statistics::new(), 0, &no_reply);
    assert!(out.ctx.response.is_none());
}

#[test]
fn plugin_names() {
    let reg = create_plugin_registry(&vec![decl("r", PluginArgs::Return), decl("c", PluginArgs::Cache(None))]).unwrap();
    assert_eq!(reg.plugins[0].name(), "return");
    assert_eq!(reg.plugins[1].name(), "cache");
}

#[test]
fn if_branch_stops_once_abort_is_set() {
    let reg = create_plugin_registry(&vec![
        decl("cond", PluginArgs::Matcher(Some(MatcherConfig { domain: vec!["a.com".to_string()], client_ip: vec![], exec_tags: vec![] }))),
        decl("stop", PluginArgs::Return),
        decl("later", delay(9)),
        decl("if", PluginArgs::If(Some(IfConfig { cond: "cond".to_string(), exec_tags: tags(&["stop", "later"]), else_exec: vec![] }))),
    ])
    .unwrap();
    let out = drive(&reg, 3, query("a.com.", 1), &mut CacheTable::new(), &mut Statistics::new(), 0, &no_reply);
    assert!(out.sleeps.is_empty());
    assert!(out.ctx.abort);
}

#[test]
fn response_ids_follow_each_request() {
    let (reg, entry) = build_main_with(vec![
        decl("fwd", PluginArgs::Forward(Some(ForwardConfig { addr: Some("1.1.1.1:53".to_string()), upstreams: None, concurrent: 1, socks5: None }))),
        decl("ttl", PluginArgs::Ttl(None)),
        decl("main", PluginArgs::Sequence(Some(SequenceConfig { exec_tags: tags(&["fwd", "ttl"]) }))),
    ]);
    let reply = |r: &DnsMessage| Some(a_answer(r, [4, 3, 2, 1]));
    for id in [0u16, 1, 777, u16::MAX] {
        let out = drive(&reg, entry, query("ids.com.", id), &mut CacheTable::new(), &mut Statistics::new(), 0, &reply);
        assert_eq!(out.ctx.response.unwrap().header.id, id);
    }
}
