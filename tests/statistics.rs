use clean_dns::context::Context;
use clean_dns::message::{DnsMessage, IpAddress, Question, RData, Record, SocketAddress, CLASS_IN, TYPE_A, TYPE_AAAA};
use clean_dns::server::{finish_query, record_query};
use clean_dns::statistics::Statistics;

#[test]
fn test_record_request() {
    let mut stats = Statistics::new();
    stats.record_request("example.com.".to_string(), 1_000);

    assert_eq!(stats.get("example.com.").unwrap().count, 1);
    stats.record_request("example.com.".to_string(), 1_000);
    assert_eq!(stats.get("example.com.").unwrap().count, 2);
}

#[test]
fn test_record_cache_hit() {
    let mut stats = Statistics::new();
    stats.record_request("example.com.".to_string(), 1_000);
    stats.record_cache_hit("example.com.".to_string(), 2_000);

    assert_eq!(stats.get("example.com.").unwrap().cache_hits, 1);
}

#[test]
fn test_record_resolved_ip() {
    let mut stats = Statistics::new();
    stats.record_request("example.com.".to_string(), 1_000);

    let ip = IpAddress::V4(u32::from_be_bytes([127, 0, 0, 1]));
    stats.record_resolved_ip("example.com.", ip, false);

    let entry = stats.get("example.com.").unwrap();
    assert_eq!(entry.ips.len(), 1);
    assert!(entry.ips.contains(&ip));
    assert_eq!(entry.last_resolved_remote, false);

    stats.record_resolved_ip("example.com.", ip, true);

    let entry = stats.get("example.com.").unwrap();
    assert_eq!(entry.ips.len(), 1);
    assert_eq!(entry.last_resolved_remote, true);
}

#[test]
fn record_request_sets_the_time_and_keeps_names_apart() {
    let mut stats = Statistics::new();
    stats.record_request("a.com.".to_string(), 1000);
    stats.record_request("b.com.".to_string(), 2000);
    stats.record_request("a.com.".to_string(), 3000);
    assert_eq!(stats.get("a.com.").unwrap().count, 2);
    assert_eq!(stats.get("a.com.").unwrap().last_resolved_at, 3000);
    assert_eq!(stats.get("b.com.").unwrap().count, 1);
    assert_eq!(stats.get("b.com.").unwrap().last_resolved_at, 2000);
    assert!(stats.get("c.com.").is_none());
    assert_eq!(stats.domains.len(), 2);
}

#[test]
fn cache_hit_before_any_request_starts_an_entry() {
    let mut stats = Statistics::new();
    stats.record_cache_hit("x.com.".to_string(), 77);
    let e = stats.get("x.com.").unwrap();
    assert_eq!((e.count, e.cache_hits, e.last_resolved_at), (0, 1, 77));
}

#[test]
fn resolved_ip_of_an_uncounted_name_is_ignored() {
    let mut stats = Statistics::new();
    stats.record_resolved_ip("nobody.com.", IpAddress::V4(1), true);
    assert!(stats.get("nobody.com.").is_none());
    assert!(stats.domains.is_empty());
}

fn query(name: &str) -> DnsMessage {
    let mut m = DnsMessage::new();
    m.header.id = 9;
    m.queries.push(Question { name: name.to_string(), qtype: TYPE_A, qclass: CLASS_IN });
    m
}

#[test]
fn finishing_a_query_notes_addresses_and_the_tunnel_flag() {
    let mut stats = Statistics::new();
    let request = query("proxied.com.");
    record_query(&mut stats, &request, 5);
    let mut ctx = Context::new(SocketAddress { ip: IpAddress::V4(1), port: 53 }, request);
    let mut resp = DnsMessage::new();
    resp.header.id = 9;
    let rec = |data: RData, rtype: u16| Record { name: "proxied.com.".to_string(), rtype, rclass: CLASS_IN, ttl: 30, data };
    resp.answers.push(rec(RData::A(u32::from_be_bytes([1, 2, 3, 4])), TYPE_A));
    resp.answers.push(rec(RData::Other(vec![3, 1, 2, 3]), 5));
    resp.answers.push(rec(RData::Aaaa(1), TYPE_AAAA));
    ctx.response = Some(resp);
    ctx.is_remote = true;
    let sent = finish_query(&mut stats, &ctx).unwrap();
    assert_eq!(sent.answers.len(), 3);
    let e = stats.get("proxied.com.").unwrap();
    assert_eq!(e.count, 1);
    assert_eq!(e.ips, vec![IpAddress::V4(u32::from_be_bytes([1, 2, 3, 4])), IpAddress::V6(1)]);
    assert!(e.last_resolved_remote);
}

#[test]
fn a_query_without_response_sends_nothing() {
    let mut stats = Statistics::new();
    let request = query("quiet.com.");
    record_query(&mut stats, &request, 5);
    let ctx = Context::new(SocketAddress { ip: IpAddress::V4(1), port: 53 }, request);
    assert!(finish_query(&mut stats, &ctx).is_none());
    assert!(stats.get("quiet.com.").unwrap().ips.is_empty());
}
