use clean_dns::context::Context;
use clean_dns::message::{DnsMessage, IpAddress, Question, SocketAddress, CLASS_IN, TYPE_A};
use clean_dns::net::Cidr;
use clean_dns::providers::{DomainSetPlugin, GeoDomain, GeoSite, GeositePlugin, IpSetPlugin};
use clean_dns::registry::{Matcher, MatcherConfig, Registry};

fn v4(a: u8, b: u8, c: u8, d: u8) -> IpAddress {
    IpAddress::V4(u32::from_be_bytes([a, b, c, d]))
}

fn lines(v: &[&str]) -> Vec<String> {
    v.iter().map(|s| s.to_string()).collect()
}

fn make_ctx(name: &str) -> Context {
    let mut msg = DnsMessage::new();
    msg.queries.push(Question { name: name.to_string(), qtype: TYPE_A, qclass: CLASS_IN });
    Context::new(SocketAddress { ip: v4(127, 0, 0, 1), port: 1234 }, msg)
}

#[test]
fn test_domain_set_loading_and_matching() {
    let plugin = DomainSetPlugin::new(&lines(&["example.com", "google.com"]));

    assert!(plugin.contains("example.com"));
    assert!(plugin.contains("google.com"));
    assert!(plugin.contains("www.google.com"));
    assert!(!plugin.contains("yahoo.com"));
}

#[test]
fn domain_set_skips_blanks_and_comments_and_trims() {
    let plugin = DomainSetPlugin::new(&lines(&["  # a comment", "", "   ", "  example.org  ", "#example.net"]));
    assert_eq!(plugin.domains, vec!["example.org".to_string()]);
    assert!(plugin.contains("a.b.example.org"));
    assert!(!plugin.contains("example.net"));
}

#[test]
fn domain_set_needs_a_dot_boundary() {
    let plugin = DomainSetPlugin::new(&lines(&["google.com"]));
    assert!(!plugin.contains("notgoogle.com"));
    assert!(!plugin.contains("google.co"));
    assert!(!plugin.contains("com"));
    assert!(plugin.contains("a.google.com"));
}

#[test]
fn test_ip_set_loading_and_matching() {
    let plugin = IpSetPlugin::new(&lines(&["192.168.1.0/24", "10.0.0.1"]));

    assert!(plugin.contains(v4(192, 168, 1, 50)));
    assert!(plugin.contains(v4(10, 0, 0, 1)));
    assert!(!plugin.contains(v4(8, 8, 8, 8)));
}

#[test]
fn ip_set_reads_blocks_and_hosts_and_skips_the_rest() {
    let plugin = IpSetPlugin::new(&lines(&["# nets", "10.0.0.0/8", " 2001:db8::1 ", "garbage", ""]));
    assert_eq!(plugin.cidrs.len(), 2);
    assert_eq!(plugin.cidrs[0], Cidr { addr: v4(10, 0, 0, 0), prefix_len: 8 });
    assert_eq!(plugin.cidrs[1].prefix_len, 128);
    assert!(plugin.contains(v4(10, 255, 1, 2)));
    assert!(!plugin.contains(v4(11, 0, 0, 0)));
    assert!(plugin.contains(IpAddress::V6(0x2001_0db8_0000_0000_0000_0000_0000_0001)));
    assert!(!plugin.contains(IpAddress::V6(0x2001_0db8_0000_0000_0000_0000_0000_0002)));
}

#[test]
fn cidr_edges() {
    let all = Cidr { addr: v4(1, 2, 3, 4), prefix_len: 0 };
    assert!(all.contains(v4(200, 1, 1, 1)));
    assert!(!all.contains(IpAddress::V6(1)));
    let one = Cidr::host(v4(1, 2, 3, 4));
    assert!(one.contains(v4(1, 2, 3, 4)));
    assert!(!one.contains(v4(1, 2, 3, 5)));
    let half = Cidr { addr: v4(128, 0, 0, 0), prefix_len: 1 };
    assert!(half.contains(v4(255, 0, 0, 0)));
    assert!(!half.contains(v4(127, 255, 255, 255)));
}

#[test]
fn test_matcher_domain() {
    let config = MatcherConfig {
        domain: vec!["example.com".to_string(), "test.com".to_string()],
        client_ip: vec![],
        exec_tags: vec![],
    };
    let reg = Registry::new();
    let matcher = Matcher::new(&Some(config), &reg).unwrap();

    let ctx = make_ctx("example.com.");
    assert!(matcher.matches(&reg, &ctx));

    let ctx = make_ctx("sub.test.com.");
    assert!(matcher.matches(&reg, &ctx));

    let ctx = make_ctx("google.com.");
    assert!(!matcher.matches(&reg, &ctx));
}

#[test]
fn matcher_without_question_does_not_match_domains() {
    let config = MatcherConfig { domain: vec!["example.com".to_string()], client_ip: vec![], exec_tags: vec![] };
    let reg = Registry::new();
    let matcher = Matcher::new(&Some(config), &reg).unwrap();
    let ctx = Context::new(SocketAddress { ip: v4(127, 0, 0, 1), port: 1 }, DnsMessage::new());
    assert!(!matcher.matches(&reg, &ctx));
}

#[test]
fn geosite_takes_the_site_of_the_upper_case_code() {
    let sites = vec![
        GeoSite {
            country_code: "CN".to_string(),
            domains: vec![GeoDomain { kind: 2, value: "baidu.com".to_string() }],
        },
        GeoSite {
            country_code: "GOOGLE".to_string(),
            domains: vec![
                GeoDomain { kind: 3, value: "exact.google".to_string() },
                GeoDomain { kind: 2, value: "google.com".to_string() },
                GeoDomain { kind: 0, value: "gstatic.com".to_string() },
                GeoDomain { kind: 1, value: "^re$".to_string() },
            ],
        },
    ];
    let plugin = GeositePlugin::new("google", &sites);
    assert_eq!(plugin.exact_matches, vec!["exact.google".to_string()]);
    assert_eq!(plugin.suffix_matches, vec!["google.com".to_string(), "gstatic.com".to_string()]);
    assert!(plugin.contains("exact.google"));
    assert!(!plugin.contains("www.exact.google"));
    assert!(plugin.contains("google.com"));
    assert!(plugin.contains("mail.google.com"));
    assert!(plugin.contains("fonts.gstatic.com"));
    assert!(!plugin.contains("baidu.com"));

    let none = GeositePlugin::new("xx", &sites);
    assert!(none.exact_matches.is_empty() && none.suffix_matches.is_empty());
}
