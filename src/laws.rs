use vstd::prelude::*;
use crate::cache::{CacheTable, Slot};
use crate::context::Context;
use crate::leaves::{clamp_all, hosts_answer, rejection, resolved_answer};
use crate::message::{Header, IpAddress, MessageModel, QuestionModel, RecordModel};
use crate::cache::key_of;
use crate::pipeline::{entered, rescue_next, walk_next, with_id, Action, Frame, PluginError, Run};
use crate::statistics::{hit_counted, Statistics};
use crate::registry::{Plugin, Registry};

verus! {

/// Once `abort` is set, a sequence (or an if-plugin, on either branch) enters none of its
/// remaining children: the walk frame leaves the stack and nothing is pushed in its place.
pub proof fn abort_stops_sequence(
    reg: Registry,
    rest: Seq<Frame>,
    owner: usize,
    branch: bool,
    pos: usize,
    ctx: Context,
)
    requires
        owner < reg.len(),
        reg.plugins@[owner as int] is Sequence || reg.plugins@[owner as int] is If,
        ctx.abort,
    ensures
        walk_next(reg, rest, owner, branch, pos, ctx) == rest,
{
}

/// While `abort` is clear, a sequence enters its children one by one, in order.
pub proof fn sequence_runs_in_order(reg: Registry, rest: Seq<Frame>, owner: usize, pos: usize, ctx: Context)
    requires
        owner < reg.len(),
        reg.plugins@[owner as int] matches Plugin::Sequence(s) && pos < s.plugins@.len(),
        !ctx.abort,
    ensures
        walk_next(reg, rest, owner, true, pos, ctx) == rest.push(
            Frame::Walk { owner, branch: true, pos: (pos + 1) as usize },
        ).push(Frame::Enter(reg.plugins@[owner as int]->Sequence_0.plugins@[pos as int])),
{
}

/// A fallback runs its secondary exactly when its primary failed.
pub proof fn fallback_secondary_only_on_failure(rest: Seq<Frame>, secondary: usize, last: Result<(), PluginError>)
    ensures
        last is Err ==> rescue_next(rest, secondary, last) == rest.push(Frame::Enter(secondary)),
        last is Ok ==> rescue_next(rest, secondary, last) == rest,
{
}

/// Two queries that find the same valid cache entry get the same response but for the
/// transaction id, which is each request's own.
pub proof fn cache_answers_repeat(
    t: CacheTable,
    s: Slot,
    m: MessageModel,
    until: u64,
    now1: u64,
    now2: u64,
    id1: u16,
    id2: u16,
)
    requires
        t.has(s),
        t.stored(s) == (m, until),
        now1 < until,
        now2 < until,
    ensures
        t.hit(s, now1) == Some(m),
        t.hit(s, now2) == Some(m),
        with_id(m, id1).header.id == id1,
        with_id(m, id2).header.id == id2,
        with_id(m, id1) == (MessageModel {
            header: Header { id: id1, ..with_id(m, id2).header },
            ..with_id(m, id2)
        }),
{
}

/// With `min <= max`, every record the TTL plugin leaves has its TTL in `[min, max]`.
pub proof fn ttl_within_bounds(records: Seq<RecordModel>, min: u32, max: u32)
    requires
        min <= max,
    ensures
        forall|i: int|
            0 <= i < records.len() ==> min <= (#[trigger] clamp_all(records, min, max)[i]).ttl <= max,
        clamp_all(records, min, max).len() == records.len(),
{
}

/// Every response a plugin produces for a request carries the request's transaction id:
/// a host answer, a rejection, a resolver answer and a cached response handed out.
pub proof fn responses_carry_request_id(
    request: MessageModel,
    query: QuestionModel,
    ip: IpAddress,
    rcode: u16,
    records: Seq<RecordModel>,
    stored: MessageModel,
)
    ensures
        hosts_answer(request, query, ip).header.id == request.header.id,
        rejection(request, rcode).header.id == request.header.id,
        resolved_answer(request, query, records).header.id == request.header.id,
        with_id(stored, request.header.id).header.id == request.header.id,
{
}

/// A cache that finds a valid entry answers from it and starts none of its miss-path
/// children: the stack is left as it was below the cache, the response is the stored one
/// with the request's transaction id, the entry stays, and one cache hit is counted.
pub proof fn cache_hit_skips_miss_path(
    reg: Registry,
    i: usize,
    rest: Seq<Frame>,
    ctx: Context,
    after: Run,
    cache0: CacheTable,
    cache1: CacheTable,
    stats0: Statistics,
    stats1: Statistics,
    a: Action,
    now: u64,
    clock: i64,
)
    requires
        entered(reg, i, rest, ctx, after, cache0, cache1, stats0, stats1, a, now, clock),
        reg.plugins@[i as int] is Cache,
        key_of(ctx.request@) is Some,
        cache0.hit((i, key_of(ctx.request@)->0), now) is Some,
    ensures
        after.stack@ == rest,
        after.ctx.response is Some,
        after.ctx.response->0@ == with_id(
            cache0.hit((i, key_of(ctx.request@)->0), now)->0,
            ctx.request.header.id,
        ),
        !after.ctx.abort || ctx.abort,
        hit_counted(stats0, stats1, ctx.request.queries@[0].name@, clock),
        cache1.stored((i, key_of(ctx.request@)->0)) == cache0.stored((i, key_of(ctx.request@)->0)),
{
}

} // verus!
