use clean_dns::context::Context;
use clean_dns::forward::{first_picks, frame_length, frame_message, ConfigError, Forward, Upstream};
use clean_dns::leaves::{default_rcode, Hosts, RejectPlugin, ReturnPlugin, System, TtlPlugin};
use clean_dns::message::{
    DnsMessage, IpAddress, Question, RData, Record, SocketAddress, CLASS_IN, RCODE_NX_DOMAIN, RCODE_REFUSED,
    TYPE_A, TYPE_AAAA,
};

fn client() -> SocketAddress {
    SocketAddress { ip: IpAddress::V4(u32::from_be_bytes([127, 0, 0, 1])), port: 1234 }
}

fn make_ctx(name: &str) -> Context {
    let mut msg = DnsMessage::new();
    msg.queries.push(Question { name: name.to_string(), qtype: TYPE_A, qclass: CLASS_IN });
    Context::new(client(), msg)
}

fn record(name: &str, ttl: u32) -> Record {
    Record { name: name.to_string(), rtype: TYPE_A, rclass: CLASS_IN, ttl, data: RData::A(0) }
}

fn a(b: [u8; 4]) -> IpAddress {
    IpAddress::V4(u32::from_be_bytes(b))
}

#[test]
fn test_hosts_lookup() {
    let hosts = Hosts::new(
        &vec!["1.2.3.4 test.local".to_string()],
        &vec![("entry.local".to_string(), "5.6.7.8".to_string())],
    );

    let mut ctx = make_ctx("test.local.");
    hosts.apply(&mut ctx);
    assert!(ctx.response.is_some());
    let answers = &ctx.response.as_ref().unwrap().answers;
    assert_eq!(answers.len(), 1);
    if let RData::A(ip) = answers[0].data {
        assert_eq!(ip, u32::from_be_bytes([1, 2, 3, 4]));
    } else {
        panic!("Expected A record");
    }

    let mut ctx = make_ctx("entry.local.");
    hosts.apply(&mut ctx);
    assert!(ctx.response.is_some());
    if let RData::A(ip) = ctx.response.as_ref().unwrap().answers[0].data {
        assert_eq!(ip, u32::from_be_bytes([5, 6, 7, 8]));
    }

    let mut ctx = make_ctx("google.com.");
    hosts.apply(&mut ctx);
    assert!(ctx.response.is_none());
}

#[test]
fn hosts_answer_mirrors_the_request() {
    let hosts = Hosts::new(&vec![], &vec![("entry.local".to_string(), "5.6.7.8".to_string())]);
    let mut ctx = make_ctx("entry.local.");
    ctx.request.header.id = 4321;
    hosts.apply(&mut ctx);
    let m = ctx.response.unwrap();
    assert_eq!(m.header.id, 4321);
    assert!(m.header.is_response && m.header.recursion_desired && m.header.recursion_available);
    assert_eq!(m.queries.len(), 1);
    assert_eq!(m.queries[0].name, "entry.local.");
    assert_eq!(m.answers[0].ttl, 60);
    assert_eq!(m.answers[0].rtype, TYPE_A);
    assert_eq!(m.answers[0].name, "entry.local.");
    assert!(!ctx.abort);
}

#[test]
fn hosts_later_mapping_wins_and_v6_gets_aaaa() {
    let hosts = Hosts::new(
        &vec!["1.1.1.1 a.local b.local".to_string(), "bogus line".to_string(), "::1 b.local".to_string()],
        &vec![("bad.local".to_string(), "not-an-ip".to_string())],
    );
    assert_eq!(hosts.mappings.len(), 3);
    let mut ctx = make_ctx("b.local.");
    hosts.apply(&mut ctx);
    let m = ctx.response.unwrap();
    assert_eq!(m.answers[0].rtype, TYPE_AAAA);
    assert!(matches!(m.answers[0].data, RData::Aaaa(1)));
    let mut ctx = make_ctx("bad.local.");
    hosts.apply(&mut ctx);
    assert!(ctx.response.is_none());
}

#[test]
fn hosts_leaves_an_existing_response() {
    let hosts = Hosts::new(&vec!["1.2.3.4 test.local".to_string()], &vec![]);
    let mut ctx = make_ctx("test.local.");
    let mut existing = DnsMessage::new();
    existing.header.response_code = 2;
    ctx.response = Some(existing);
    hosts.apply(&mut ctx);
    assert_eq!(ctx.response.unwrap().header.response_code, 2);
}

#[allow(non_snake_case)]
#[test]
fn test_reject_NXDOMAIN() {
    let plugin = RejectPlugin::new(Some(3));

    let mut ctx = Context::new(client(), DnsMessage::new());
    plugin.apply(&mut ctx);

    assert!(ctx.response.is_some());
    assert_eq!(ctx.response.unwrap().header.response_code, RCODE_NX_DOMAIN);
    assert!(ctx.abort);
}

#[test]
fn reject_defaults_to_refused_and_copies_the_header() {
    assert_eq!(default_rcode(), 5);
    let plugin = RejectPlugin::new(None);
    assert_eq!(plugin.rcode, RCODE_REFUSED);
    let mut ctx = make_ctx("x.com.");
    ctx.request.header.id = 77;
    ctx.request.header.recursion_desired = true;
    plugin.apply(&mut ctx);
    let m = ctx.response.unwrap();
    assert_eq!(m.header.id, 77);
    assert!(m.header.recursion_desired && m.header.is_response);
    assert!(m.queries.is_empty() && m.answers.is_empty());
    assert_eq!(RejectPlugin::new(Some(0x13)).rcode, 3);
}

#[test]
fn test_return_plugin() {
    let plugin = ReturnPlugin::new();
    let mut ctx = Context::new(client(), DnsMessage::new());
    plugin.apply(&mut ctx);
    assert!(ctx.abort);
}

#[test]
fn test_ttl_clamping() {
    let plugin = TtlPlugin::new(Some(10), Some(100));

    let mut ctx = Context::new(client(), DnsMessage::new());
    let mut response = DnsMessage::new();
    response.answers.push(record("low.com.", 5));
    response.answers.push(record("high.com.", 200));
    response.answers.push(record("ok.com.", 50));
    ctx.response = Some(response);

    plugin.apply(&mut ctx);

    let answers = ctx.response.unwrap().answers;
    assert_eq!(answers[0].ttl, 10);
    assert_eq!(answers[1].ttl, 100);
    assert_eq!(answers[2].ttl, 50);
}

#[test]
fn ttl_clamps_every_section_and_defaults_are_open() {
    let open = TtlPlugin::new(None, None);
    assert_eq!((open.min, open.max), (0, u32::MAX));
    let plugin = TtlPlugin::new(Some(30), Some(60));
    let mut ctx = Context::new(client(), DnsMessage::new());
    let mut response = DnsMessage::new();
    response.name_servers.push(record("ns.", 1));
    response.additionals.push(record("ad.", 1000));
    ctx.response = Some(response);
    plugin.apply(&mut ctx);
    let m = ctx.response.unwrap();
    assert_eq!(m.name_servers[0].ttl, 30);
    assert_eq!(m.additionals[0].ttl, 60);
    let mut empty = Context::new(client(), DnsMessage::new());
    plugin.apply(&mut empty);
    assert!(empty.response.is_none());
}

#[test]
fn system_builds_a_response_from_resolved_records() {
    let mut request = DnsMessage::new();
    request.header.id = 123;
    request.header.recursion_desired = true;
    request.queries.push(Question { name: "google.com.".to_string(), qtype: TYPE_A, qclass: CLASS_IN });
    let m = System::respond(&request, &vec![record("google.com.", 300)]);
    assert_eq!(m.header.id, 123);
    assert!(m.header.is_response && m.header.recursion_available && m.header.recursion_desired);
    assert_eq!(m.answers.len(), 1);
    assert_eq!(m.queries[0].name, "google.com.");
}

#[test]
fn upstream_texts_are_classified_and_parsed() {
    match Forward::parse_upstream("https://dns.example/dns-query") {
        Ok(Upstream::DoH(u)) => assert_eq!(u, "https://dns.example/dns-query"),
        _ => panic!("expected a DoH upstream"),
    }
    match Forward::parse_upstream("1.1.1.1:53") {
        Ok(Upstream::Udp(a1)) => assert_eq!(a1, SocketAddress { ip: a([1, 1, 1, 1]), port: 53 }),
        _ => panic!("expected a UDP upstream"),
    }
    assert!(matches!(Forward::parse_upstream("1.1.1.1"), Err(ConfigError::InvalidAddress(_))));
    assert!(matches!(Forward::parse_upstream("https://"), Err(ConfigError::InvalidUrl(_))));
}

#[test]
fn forwarder_configuration() {
    let f = Forward::new(&Some("8.8.8.8:53".to_string()), &Some(vec!["1.1.1.1:53".to_string()]), 0, &None).unwrap();
    assert_eq!(f.upstreams.len(), 2);
    assert_eq!(f.concurrent, 1);
    assert!(f.socks5.is_none());
    let g = Forward::new(&None, &Some(vec!["1.1.1.1:53".to_string()]), 3, &Some("127.0.0.1:1080".to_string())).unwrap();
    assert_eq!(g.concurrent, 3);
    assert_eq!(g.socks5, Some(SocketAddress { ip: a([127, 0, 0, 1]), port: 1080 }));
    assert!(matches!(Forward::new(&None, &Some(vec![]), 1, &None), Err(ConfigError::NoUpstream)));
    assert!(matches!(Forward::new(&None, &None, 1, &None), Err(ConfigError::NoUpstream)));
    assert!(matches!(
        Forward::new(&None, &Some(vec!["1.1.1.1:53".to_string()]), 1, &Some("nope".to_string())),
        Err(ConfigError::InvalidAddress(_))
    ));
}

#[test]
fn upstream_selection_counts() {
    let four: Vec<String> = (1..=4).map(|i| format!("10.0.0.{}:53", i)).collect();
    let one = Forward::new(&None, &Some(four.clone()), 1, &None).unwrap();
    for _ in 0..20 {
        let p = one.select();
        assert_eq!(p.len(), 1);
        assert!(p[0] < 4);
    }
    let three = Forward::new(&None, &Some(four.clone()), 3, &None).unwrap();
    let many = Forward::new(&None, &Some(four.clone()), 9, &None).unwrap();
    for _ in 0..20 {
        let mut p = three.select();
        assert_eq!(p.len(), 3);
        p.sort();
        p.dedup();
        assert_eq!(p.len(), 3);
        let mut q = many.select();
        q.sort();
        assert_eq!(q, vec![0, 1, 2, 3]);
    }
    let single = Forward::new(&Some("9.9.9.9:53".to_string()), &None, 5, &None).unwrap();
    assert_eq!(single.select(), vec![0]);
}

#[test]
fn stream_framing() {
    let framed = frame_message(&vec![0xAA; 300]);
    assert_eq!(framed.len(), 302);
    assert_eq!(&framed[..2], &[1, 44]);
    assert_eq!(frame_length(1, 44), 300);
    assert_eq!(frame_message(&vec![]), vec![0, 0]);
}

#[test]
fn doh_urls_come_back_normalized() {
    match Forward::parse_upstream("https://DNS.Example") {
        Ok(Upstream::DoH(u)) => assert_eq!(u, "https://dns.example/"),
        _ => panic!("expected a DoH upstream"),
    }
}

#[test]
fn picks_are_the_head_of_the_order() {
    assert_eq!(first_picks(&vec![3, 1, 2], 2), vec![3, 1]);
    assert_eq!(first_picks(&vec![3, 1, 2], 5), vec![3, 1, 2]);
    assert!(first_picks(&vec![], 1).is_empty());
}
