use vstd::prelude::*;
use crate::context::Context;
use crate::message::{DnsMessage, IpAddress, RData, RecordModel, DataModel};
use crate::statistics::{request_counted, Statistics};

verus! {

/// The address an answer record carries, for A and AAAA data.
pub open spec fn record_address(r: RecordModel) -> Option<IpAddress> {
    match r.data {
        DataModel::A(a) => Some(IpAddress::V4(a)),
        DataModel::Aaaa(a) => Some(IpAddress::V6(a)),
        _ => None,
    }
}

/// Counts a received query, at time `now`, under its question's name as written with its
/// trailing dot. A query without a question is not counted.
pub fn record_query(stats: &mut Statistics, request: &DnsMessage, now: i64)
    requires
        old(stats).wf(),
    ensures
        final(stats).wf(),
        request.queries@.len() > 0 ==> request_counted(*old(stats), *final(stats), request.queries@[0].name@, now),
        request.queries@.len() == 0 ==> *final(stats) == *old(stats),
{
    if request.queries.len() > 0 {
        stats.record_request(request.queries[0].name.clone(), now);
    }
}

/// At the end of a query's run: for a response, notes each address among its answers
/// (with whether the run went through a tunnel) under the question's name, and hands the
/// response back for sending. Without a response nothing is sent.
pub fn finish_query(stats: &mut Statistics, ctx: &Context) -> (r: Option<DnsMessage>)
    requires
        old(stats).wf(),
    ensures
        final(stats).wf(),
        forall|n: Seq<char>| #[trigger] final(stats).has(n) == old(stats).has(n),
        match r {
            Some(m) => ctx.response matches Some(c) && m@ == c@,
            None => ctx.response is None,
        },
        ctx.response is None || ctx.request.queries@.len() == 0 ==> *final(stats) == *old(stats),
        ctx.response is Some && ctx.request.queries@.len() > 0 && old(stats).has(
            ctx.request.queries@[0].name@,
        ) ==> {
            let e = final(stats).entry(ctx.request.queries@[0].name@);
            let o = old(stats).entry(ctx.request.queries@[0].name@);
            &&& forall|j: int|
                0 <= j < ctx.response->0@.answers.len() && #[trigger] record_address(ctx.response->0@.answers[j]) is Some
                    ==> e.ips@.contains(record_address(ctx.response->0@.answers[j])->0)
            &&& forall|x: IpAddress| e.ips@.contains(x) ==> o.ips@.contains(x) || exists|j: int|
                0 <= j < ctx.response->0@.answers.len() && #[trigger] record_address(ctx.response->0@.answers[j]) == Some(x)
            &&& e.count == o.count
            &&& (exists|j: int|
                0 <= j < ctx.response->0@.answers.len() && #[trigger] record_address(ctx.response->0@.answers[j]) is Some)
                ==> e.last_resolved_remote == ctx.is_remote
        },
{
    match &ctx.response {
        None => None,
        Some(m) => {
            if ctx.request.queries.len() > 0 {
                let name = ctx.request.queries[0].name.as_str();
                let ghost n = ctx.request.queries@[0].name@;
                let ghost o = stats.entry(n);
                let ghost had = stats.has(n);
                let mut i: usize = 0;
                while i < m.answers.len()
                    invariant
                        stats.wf(),
                        i <= m.answers@.len(),
                        name@ == n,
                        forall|x: Seq<char>| #[trigger] stats.has(x) == old(stats).has(x),
                        forall|x: Seq<char>| x != n && #[trigger] old(stats).has(x) ==> stats.entry(x) == old(stats).entry(x),
                        had == old(stats).has(n),
                        o == old(stats).entry(n),
                        had ==> {
                            let e = stats.entry(n);
                            &&& forall|j: int|
                                0 <= j < i && #[trigger] record_address(m@.answers[j]) is Some
                                    ==> e.ips@.contains(record_address(m@.answers[j])->0)
                            &&& forall|x: IpAddress| e.ips@.contains(x) ==> o.ips@.contains(x) || exists|j: int|
                                0 <= j < i && #[trigger] record_address(m@.answers[j]) == Some(x)
                            &&& e.count == o.count
                            &&& (exists|j: int| 0 <= j < i && #[trigger] record_address(m@.answers[j]) is Some)
                                ==> e.last_resolved_remote == ctx.is_remote
                        },
                        !had ==> *stats == *old(stats),
                    decreases m.answers@.len() - i,
                {
                    let ip = match &m.answers[i].data {
                        RData::A(a) => Some(IpAddress::V4(*a)),
                        RData::Aaaa(a) => Some(IpAddress::V6(*a)),
                        RData::Other(_) => None,
                    };
                    assert(m@.answers[i as int] == m.answers@[i as int]@);
                    assert(ip == record_address(m@.answers[i as int]));
                    match ip {
                        Some(x) => {
                            let ghost prev = stats.entry(n);
                            let ghost prev_stats = *stats;
                            stats.record_resolved_ip(name, x, ctx.is_remote);
                            proof {
                                assert forall|y: Seq<char>| y != n && #[trigger] old(stats).has(y) implies stats.entry(y) == old(stats).entry(y) by {
                                    assert(prev_stats.has(y));
                                }
                                if had {
                                    let e = stats.entry(n);
                                    assert(e.ips@.to_set() == prev.ips@.to_set().insert(x));
                                    assert forall|j: int|
                                        0 <= j <= i && #[trigger] record_address(m@.answers[j]) is Some
                                        implies e.ips@.contains(record_address(m@.answers[j])->0) by {
                                        let y = record_address(m@.answers[j])->0;
                                        if j < i {
                                            assert(prev.ips@.contains(y));
                                            assert(prev.ips@.to_set().contains(y));
                                            assert(e.ips@.to_set().contains(y));
                                        } else {
                                            assert(e.ips@.to_set().contains(x));
                                        }
                                    }
                                    assert forall|y: IpAddress| e.ips@.contains(y) implies o.ips@.contains(y) || exists|j: int|
                                        0 <= j < i + 1 && #[trigger] record_address(m@.answers[j]) == Some(y) by {
                                        assert(e.ips@.to_set().contains(y));
                                        if y != x {
                                            assert(prev.ips@.to_set().contains(y));
                                            assert(prev.ips@.contains(y));
                                        } else {
                                            assert(record_address(m@.answers[i as int]) == Some(y));
                                        }
                                    }
                                    assert(record_address(m@.answers[i as int]) is Some);
                                }
                            }
                        },
                        None => {},
                    }
                    i = i + 1;
                }
            }
            Some(m.duplicate())
        },
    }
}

} // verus!
