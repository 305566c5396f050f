use vstd::prelude::*;
use crate::cache::{cache_key, expiry, expiry_of, key_of, CacheKey, CacheTable, Slot};
use crate::context::Context;
use crate::forward::fan_out;
use crate::leaves::{clamp_all, rejection, resolved_answer, System};
use crate::message::{DnsMessage, Header, MessageModel, Question, Record, records_view};
use crate::registry::{all_below, Plugin, Registry};
use crate::statistics::{hit_counted, Statistics};

verus! {

/// Why a plugin failed.
#[derive(Clone, Copy, Debug, PartialEq, Eq, Structural)]
pub enum PluginError {
    /// Every upstream asked failed.
    Upstream,
}

/// One pending piece of work of a run.
pub enum Frame {
    /// Start the plugin at this index.
    Enter(usize),
    /// Walk the child list of `owner` (for an if-plugin, `branch` picks the list), next at `pos`.
    Walk { owner: usize, branch: bool, pos: usize },
    /// Once the miss path of cache `owner` is done, store the response under `key`.
    Fill { owner: usize, key: CacheKey },
    /// The primary of fallback `owner` is running; on its failure run the secondary.
    Rescue { owner: usize },
}

/// The outside result a run waits for.
#[derive(Clone, Copy, Debug, PartialEq, Eq, Structural)]
pub enum Waiting {
    Idle,
    Exchange { owner: usize },
    Sleep,
    Resolve,
}

/// What the caller hands a run: the result of the action it asked for.
pub enum Event {
    Resume,
    /// The first successful upstream answer, or none where every upstream failed.
    Exchanged(Option<DnsMessage>),
    Slept,
    /// The records the host's resolver found, or none where it failed.
    Resolved(Option<Vec<Record>>),
}

/// What a run asks of its caller.
pub enum Action {
    /// Step again.
    Continue,
    /// Ask the upstreams of forwarder `plugin` at these indices, all at once.
    Exchange { plugin: usize, picks: Vec<usize> },
    /// Wait this many milliseconds.
    Sleep(u64),
    /// Ask the host's resolver.
    Resolve(Question),
    /// The run is over, with this result.
    Finished(Result<(), PluginError>),
}

/// The child list of a composing plugin.
pub open spec fn child_list(p: Plugin, branch: bool) -> Seq<usize> {
    match p {
        Plugin::Sequence(s) => s.plugins@,
        Plugin::If(f) => if branch {
            f.then_exec@
        } else {
            f.else_exec@
        },
        Plugin::Matcher(m) => m.plugins@,
        Plugin::Cache(c) => c.plugins@,
        _ => Seq::empty(),
    }
}

/// Whether the plugin walks a child list.
pub open spec fn walks(p: Plugin) -> bool {
    p is Sequence || p is If || p is Matcher || p is Cache
}

/// Whether a walk of `p`'s children goes on to the child at `pos`: a sequence, and an
/// if-plugin likewise, stops before a child once `abort` is set; a matcher stops after a
/// child once a response is present or `abort` is set; a cache's miss path runs through.
pub open spec fn may_continue(p: Plugin, pos: int, ctx: Context) -> bool {
    match p {
        Plugin::Sequence(_) => !ctx.abort,
        Plugin::If(_) => !ctx.abort,
        Plugin::Matcher(_) => pos == 0 || !(ctx.response.is_some() || ctx.abort),
        _ => true,
    }
}

/// The stack after a walk frame of `owner` at `pos` is taken from the top of `rest`.
pub open spec fn walk_next(
    reg: Registry,
    rest: Seq<Frame>,
    owner: usize,
    branch: bool,
    pos: usize,
    ctx: Context,
) -> Seq<Frame> {
    let list = child_list(reg.plugins@[owner as int], branch);
    if pos < list.len() && may_continue(reg.plugins@[owner as int], pos as int, ctx) {
        rest.push(Frame::Walk { owner, branch, pos: (pos + 1) as usize }).push(Frame::Enter(list[pos as int]))
    } else {
        rest
    }
}

/// The stack after a fallback's primary ended with `last`: the secondary runs only on failure.
pub open spec fn rescue_next(rest: Seq<Frame>, secondary: usize, last: Result<(), PluginError>) -> Seq<Frame> {
    if last is Err {
        rest.push(Frame::Enter(secondary))
    } else {
        rest
    }
}

/// Every slot but `s` is as it was.
pub open spec fn others_kept(c0: CacheTable, c1: CacheTable, s: Slot) -> bool {
    forall|t: Slot|
        t != s ==> (#[trigger] c1.has(t) == c0.has(t) && (c0.has(t) ==> c1.stored(t) == c0.stored(t)))
}

/// A stored response handed out for a request with transaction id `id`.
pub open spec fn with_id(m: MessageModel, id: u16) -> MessageModel {
    MessageModel { header: Header { id, ..m.header }, ..m }
}

/// A frame names plugins of the registry, of the kinds it works on.
pub open spec fn frame_ok(reg: Registry, f: Frame) -> bool {
    match f {
        Frame::Enter(i) => i < reg.len(),
        Frame::Walk { owner, branch, pos } => owner < reg.len() && walks(reg.plugins@[owner as int])
            && pos <= child_list(reg.plugins@[owner as int], branch).len(),
        Frame::Fill { owner, key } => owner < reg.len() && reg.plugins@[owner as int] is Cache,
        Frame::Rescue { owner } => owner < reg.len() && reg.plugins@[owner as int] is Fallback,
    }
}

/// The execution of the pipeline for one query.
pub struct Run {
    pub ctx: Context,
    pub stack: Vec<Frame>,
    pub last: Result<(), PluginError>,
    pub waiting: Waiting,
}

pub open spec fn list_len(reg: Registry, owner: usize, branch: bool) -> int {
    child_list(reg.plugins@[owner as int], branch).len() as int
}

impl Run {
    pub open spec fn wf(&self, reg: Registry) -> bool {
        &&& forall|i: int| 0 <= i < self.stack@.len() ==> frame_ok(reg, #[trigger] self.stack@[i])
        &&& self.waiting matches Waiting::Exchange { owner } ==> owner < reg.len()
            && reg.plugins@[owner as int] is Forward
    }

    /// A run that starts the plugin at `entry` on `ctx`.
    pub fn new(entry: usize, ctx: Context) -> (r: Run)
        ensures
            r.ctx == ctx,
            r.stack@ == seq![Frame::Enter(entry)],
            r.last == Ok::<(), PluginError>(()),
            r.waiting == Waiting::Idle,
    {
        let mut stack: Vec<Frame> = Vec::new();
        stack.push(Frame::Enter(entry));
        Run { ctx, stack, last: Ok(()), waiting: Waiting::Idle }
    }

}

fn child_count(reg: &Registry, owner: usize, branch: bool) -> (r: usize)
    requires
        owner < reg.len(),
    ensures
        r == list_len(*reg, owner, branch),
{
    match &reg.plugins[owner] {
        Plugin::Sequence(s) => s.plugins.len(),
        Plugin::If(f) => if branch {
            f.then_exec.len()
        } else {
            f.else_exec.len()
        },
        Plugin::Matcher(m) => m.plugins.len(),
        Plugin::Cache(c) => c.plugins.len(),
        _ => 0,
    }
}

fn child_at(reg: &Registry, owner: usize, branch: bool, pos: usize) -> (r: usize)
    requires
        owner < reg.len(),
        pos < list_len(*reg, owner, branch),
    ensures
        r == child_list(reg.plugins@[owner as int], branch)[pos as int],
{
    match &reg.plugins[owner] {
        Plugin::Sequence(s) => s.plugins[pos],
        Plugin::If(f) => if branch {
            f.then_exec[pos]
        } else {
            f.else_exec[pos]
        },
        Plugin::Matcher(m) => m.plugins[pos],
        Plugin::Cache(c) => c.plugins[pos],
        _ => 0,
    }
}

/// The index of a fallback's secondary.
pub open spec fn secondary_of(p: Plugin) -> usize {
    match p {
        Plugin::Fallback(f) => f.secondary,
        _ => 0,
    }
}

/// The index of a fallback's primary.
pub open spec fn primary_of(p: Plugin) -> usize {
    match p {
        Plugin::Fallback(f) => f.primary,
        _ => 0,
    }
}

/// How long the responses of a cache stay valid.
pub open spec fn ttl_of(p: Plugin) -> u64 {
    match p {
        Plugin::Cache(c) => c.ttl_ms,
        _ => 0,
    }
}

/// What taking in `event` does to a run that waited for `waiting` with context `ctx`;
/// `after` is the run it leaves.
pub open spec fn resumed(reg: Registry, waiting: Waiting, ctx: Context, after: Run, event: Event) -> bool {
    &&& waiting matches Waiting::Exchange { owner } ==> match event {
                    Event::Exchanged(Some(m)) => after.ctx.response is Some && after.ctx.response->0@
                        == with_id(m@, ctx.request.header.id) && after.last
                        is Ok && after.ctx.is_remote == (ctx.is_remote || reg.plugins@[owner as int]->Forward_0.socks5 is Some),
                    _ => after.last == Err::<(), PluginError>(PluginError::Upstream)
                        && after.ctx == ctx,
                }
    &&& waiting == Waiting::Sleep ==> after.ctx == ctx && after.last is Ok
    &&& waiting == Waiting::Resolve ==> after.last is Ok && after.ctx.is_remote
                    == ctx.is_remote && match event {
                    Event::Resolved(Some(recs)) => if ctx.response.is_none()
                        && ctx.request.queries@.len() > 0 {
                        after.ctx.response matches Some(m) && m@ == resolved_answer(
                            ctx.request@,
                            ctx.request.queries@[0]@,
                            records_view(recs@),
                        )
                    } else {
                        after.ctx == ctx
                    },
                    _ => after.ctx == ctx,
                }
}

/// What starting the plugin at `i` does: `rest` and `ctx` are the stack and context it
/// starts from, `after` the run it leaves, `cache0` the cache before, `stats1` the
/// statistics after, `a` the action it asks for.
pub open spec fn entered(
    reg: Registry,
    i: usize,
    rest: Seq<Frame>,
    ctx: Context,
    after: Run,
    cache0: CacheTable,
    cache1: CacheTable,
    stats0: Statistics,
    stats1: Statistics,
    a: Action,
    now: u64,
    clock: i64,
) -> bool {
        let p = reg.plugins@[i as int];
        (!(p is Cache) ==> cache1 == cache0 && stats1 == stats0) && match p {
            Plugin::Sequence(_) => after.stack@ == rest.push(
                Frame::Walk { owner: i, branch: true, pos: 0 },
            ) && after.ctx == ctx,
            Plugin::If(f) => after.stack@ == rest.push(
                Frame::Walk {
                    owner: i,
                    branch: reg.plugins@[f.cond as int]->Matcher_0.holds(&reg, &ctx),
                    pos: 0,
                },
            ) && after.ctx == ctx,
            Plugin::Matcher(m) => after.ctx == ctx && if m.holds(&reg, &ctx) {
                after.stack@ == rest.push(Frame::Walk { owner: i, branch: true, pos: 0 })
            } else {
                after.stack@ == rest
            },
            Plugin::Fallback(f) => after.stack@ == rest.push(
                Frame::Rescue { owner: i },
            ).push(Frame::Enter(f.primary)) && after.ctx == ctx,
            Plugin::Cache(c) => match key_of(ctx.request@) {
                None => {
                    &&& after.stack@ == rest.push(Frame::Walk { owner: i, branch: true, pos: 0 })
                    &&& after.ctx == ctx
                    &&& cache1 == cache0
                    &&& stats1 == stats0
                },
                Some(k) => match cache0.hit((i, k), now) {
                    Some(m) => {
                        &&& after.stack@ == rest
                        &&& after.ctx == (Context { response: after.ctx.response, ..ctx })
                        &&& after.ctx.response is Some
                        &&& after.ctx.response->0@ == with_id(m, ctx.request.header.id)
                        &&& hit_counted(stats0, stats1, ctx.request.queries@[0].name@, clock)
                        &&& cache1.has((i, k)) && cache1.stored((i, k)) == cache0.stored((i, k))
                        &&& others_kept(cache0, cache1, (i, k))
                    },
                    None => {
                        &&& after.ctx == ctx
                        &&& after.stack@.len() == rest.len() + 2
                        &&& after.stack@.subrange(0, rest.len() as int) == rest
                        &&& after.stack@[rest.len() as int] matches Frame::Fill { owner, key } && owner == i && key@ == k
                        &&& after.stack@[rest.len() as int + 1] == Frame::Walk { owner: i, branch: true, pos: 0 }
                        &&& !cache1.has((i, k))
                        &&& others_kept(cache0, cache1, (i, k))
                        &&& stats1 == stats0
                    },
                },
            },
            Plugin::Forward(f) => after.stack@ == rest && if ctx.response is Some {
                after.ctx == ctx && a is Continue && after.waiting == Waiting::Idle
            } else {
                &&& after.ctx == ctx
                &&& after.waiting == Waiting::Exchange { owner: i }
                &&& a matches Action::Exchange { plugin, picks } && plugin == i
                    && picks@.len() == fan_out(f.upstreams@.len(), f.concurrent)
                    && picks@.no_duplicates() && all_below(picks@, f.upstreams@.len() as int)
            },
            Plugin::Hosts(h) => after.stack@ == rest && h.applied(ctx, after.ctx),
            Plugin::Reject(j) => after.stack@ == rest && after.ctx.abort
                && after.ctx.is_remote == ctx.is_remote && after.ctx.response is Some
                && after.ctx.response->0@ == rejection(ctx.request@, j.rcode),
            Plugin::Return(_) => after.stack@ == rest && after.ctx == (Context {
                abort: true,
                ..ctx
            }),
            Plugin::Ttl(t) => {
                let c1 = after.ctx;
                &&& after.stack@ == rest
                &&& c1.client_addr == ctx.client_addr
                &&& c1.request == ctx.request
                &&& c1.abort == ctx.abort
                &&& c1.is_remote == ctx.is_remote
                &&& (c1.response is Some <==> ctx.response is Some)
                &&& ctx.response matches Some(m) ==> {
                    &&& c1.response->0@.header == m@.header
                    &&& c1.response->0@.queries == m@.queries
                    &&& c1.response->0@.answers == clamp_all(m@.answers, t.min, t.max)
                    &&& c1.response->0@.name_servers == clamp_all(m@.name_servers, t.min, t.max)
                    &&& c1.response->0@.additionals == clamp_all(m@.additionals, t.min, t.max)
                }
            },
            Plugin::Delay(d) => after.stack@ == rest && after.ctx == ctx && if d.ms
                > 0 {
                a == Action::Sleep(d.ms) && after.waiting == Waiting::Sleep
            } else {
                a is Continue
            },
            Plugin::System(_) => after.stack@ == rest && after.ctx == ctx && if ctx.response
                is None && ctx.request.queries@.len() > 0 {
                a matches Action::Resolve(q) && q@ == ctx.request.queries@[0]@
                    && after.waiting == Waiting::Resolve
            } else {
                a is Continue
            },
            _ => after.stack@ == rest && after.ctx == ctx,
        }
}

impl Run {
    /// Takes in the outside result the run waits for.
    fn resume(&mut self, reg: &Registry, event: Event)
        requires
            reg.wf(),
            old(self).wf(*reg),
            old(self).waiting != Waiting::Idle,
        ensures
            final(self).wf(*reg),
            final(self).waiting == Waiting::Idle,
            final(self).stack == old(self).stack,
            final(self).ctx.request == old(self).ctx.request,
            final(self).ctx.client_addr == old(self).ctx.client_addr,
            final(self).ctx.abort == old(self).ctx.abort,
            old(self).ctx.id_consistent() ==> final(self).ctx.id_consistent(),
            resumed(*reg, old(self).waiting, old(self).ctx, *final(self), event),
    {
        match self.waiting {
            Waiting::Exchange { owner } => {
                self.waiting = Waiting::Idle;
                match event {
                    Event::Exchanged(Some(m)) => {
                        let mut m = m;
                        m.header.id = self.ctx.request.header.id;
                        self.ctx.response = Some(m);
                        match &reg.plugins[owner] {
                            Plugin::Forward(f) => {
                                if f.socks5.is_some() {
                                    self.ctx.is_remote = true;
                                }
                            },
                            _ => {},
                        }
                        self.last = Ok(());
                    },
                    _ => {
                        self.last = Err(PluginError::Upstream);
                    },
                }
            },
            Waiting::Sleep => {
                self.waiting = Waiting::Idle;
                self.last = Ok(());
            },
            Waiting::Resolve => {
                self.waiting = Waiting::Idle;
                match event {
                    Event::Resolved(Some(recs)) => {
                        if self.ctx.response.is_none() && self.ctx.request.queries.len() > 0 {
                            let m = System::respond(&self.ctx.request, &recs);
                            self.ctx.response = Some(m);
                        }
                    },
                    _ => {},
                }
                self.last = Ok(());
            },
            Waiting::Idle => {},
        }
    }

    /// Advances a walk of `owner`'s children that was just taken from the stack.
    fn walk(&mut self, reg: &Registry, owner: usize, branch: bool, pos: usize)
        requires
            reg.wf(),
            old(self).wf(*reg),
            frame_ok(*reg, Frame::Walk { owner, branch, pos }),
            old(self).last is Ok,
        ensures
            final(self).wf(*reg),
            final(self).ctx == old(self).ctx,
            final(self).last == old(self).last,
            final(self).waiting == old(self).waiting,
            final(self).stack@ == walk_next(*reg, old(self).stack@, owner, branch, pos, old(self).ctx),
    {
        let n = child_count(reg, owner, branch);
        if pos >= n {
            return;
        }
        let go = match &reg.plugins[owner] {
            Plugin::Sequence(_) => !self.ctx.abort,
            Plugin::If(_) => !self.ctx.abort,
            Plugin::Matcher(_) => pos == 0 || !(self.ctx.response.is_some() || self.ctx.abort),
            _ => true,
        };
        if go {
            let child = child_at(reg, owner, branch, pos);
            proof {
                let p = reg.plugins@[owner as int];
                assert(refs_below_child(p, branch, pos as int, owner as int));
            }
            self.stack.push(Frame::Walk { owner, branch, pos: pos + 1 });
            self.stack.push(Frame::Enter(child));
        }
    }
}

/// A child of a well-formed registry's plugin comes before it.
pub open spec fn refs_below_child(p: Plugin, branch: bool, pos: int, bound: int) -> bool {
    0 <= pos < child_list(p, branch).len() ==> child_list(p, branch)[pos] < bound
}

impl Run {
    /// Starts the plugin at `i`, which was just taken from the stack.
    #[verifier::rlimit(60)]
    fn enter(
        &mut self,
        reg: &Registry,
        i: usize,
        cache: &mut CacheTable,
        stats: &mut Statistics,
        now: u64,
        clock: i64,
    ) -> (a: Action)
        requires
            reg.wf(),
            old(self).wf(*reg),
            old(self).waiting == Waiting::Idle,
            i < reg.len(),
            old(cache).wf(),
            old(stats).wf(),
        ensures
            final(self).wf(*reg),
            final(cache).wf(),
            final(stats).wf(),
            final(self).ctx.request == old(self).ctx.request,
            final(self).ctx.client_addr == old(self).ctx.client_addr,
            old(self).ctx.id_consistent() ==> final(self).ctx.id_consistent(),
            !(a is Finished),
            entered(*reg, i, old(self).stack@, old(self).ctx, *final(self), *old(cache), *final(cache), *old(stats), *final(stats), a, now, clock),
            final(self).last is Ok,
            a is Continue || a is Exchange || a is Sleep || a is Resolve,
            !(a is Continue) ==> final(self).waiting != Waiting::Idle,
            a is Continue ==> final(self).waiting == Waiting::Idle,
    {
        self.last = Ok(());
        let ghost ctx0 = self.ctx;
        proof {
            assert(crate::registry::refs_below(reg.plugins@[i as int], i as int));
        }
        match &reg.plugins[i] {
            Plugin::Sequence(_) => {
                self.stack.push(Frame::Walk { owner: i, branch: true, pos: 0 });
                Action::Continue
            },
            Plugin::If(f) => {
                assert(reg.facets_ok(reg.plugins@[i as int]));
                let holds = match &reg.plugins[f.cond] {
                    Plugin::Matcher(m) => {
                        proof {
                            assert(crate::registry::refs_below(reg.plugins@[f.cond as int], f.cond as int));
                        }
                        m.matches(reg, &self.ctx)
                    },
                    _ => false,
                };
                self.stack.push(Frame::Walk { owner: i, branch: holds, pos: 0 });
                Action::Continue
            },
            Plugin::Matcher(m) => {
                if m.matches(reg, &self.ctx) {
                    self.stack.push(Frame::Walk { owner: i, branch: true, pos: 0 });
                }
                Action::Continue
            },
            Plugin::Fallback(f) => {
                self.stack.push(Frame::Rescue { owner: i });
                self.stack.push(Frame::Enter(f.primary));
                Action::Continue
            },
            Plugin::Cache(_) => {
                match cache_key(&self.ctx.request) {
                    None => {
                        self.stack.push(Frame::Walk { owner: i, branch: true, pos: 0 });
                    },
                    Some(key) => {
                        match cache.lookup(i, &key, now) {
                            Some(m) => {
                                let mut m = m;
                                m.header.id = self.ctx.request.header.id;
                                self.ctx.response = Some(m);
                                let name = self.ctx.request.queries[0].name.clone();
                                stats.record_cache_hit(name, clock);
                            },
                            None => {
                                let ghost rest = self.stack@;
                                self.stack.push(Frame::Fill { owner: i, key });
                                self.stack.push(Frame::Walk { owner: i, branch: true, pos: 0 });
                                assert(self.stack@.subrange(0, rest.len() as int) =~= rest);
                            },
                        }
                    },
                }
                Action::Continue
            },
            Plugin::Forward(f) => {
                if self.ctx.response.is_some() {
                    Action::Continue
                } else {
                    let picks = f.select();
                    self.waiting = Waiting::Exchange { owner: i };
                    Action::Exchange { plugin: i, picks }
                }
            },
            Plugin::Hosts(h) => {
                h.apply(&mut self.ctx);
                Action::Continue
            },
            Plugin::Reject(j) => {
                j.apply(&mut self.ctx);
                Action::Continue
            },
            Plugin::Return(r) => {
                r.apply(&mut self.ctx);
                Action::Continue
            },
            Plugin::Ttl(t) => {
                t.apply(&mut self.ctx);
                Action::Continue
            },
            Plugin::Delay(d) => {
                if d.ms > 0 {
                    self.waiting = Waiting::Sleep;
                    Action::Sleep(d.ms)
                } else {
                    Action::Continue
                }
            },
            Plugin::System(_) => {
                if self.ctx.response.is_none() && self.ctx.request.queries.len() > 0 {
                    self.waiting = Waiting::Resolve;
                    Action::Resolve(self.ctx.request.queries[0].duplicate())
                } else {
                    Action::Continue
                }
            },
            Plugin::DomainSet(_) => Action::Continue,
            Plugin::IpSet(_) => Action::Continue,
        }
    }
}

impl Run {
    /// Advances the run by one step: takes in the awaited outside result, or works the
    /// frame on top of the stack, and says what the caller has to do next.
    pub fn step(
        &mut self,
        reg: &Registry,
        event: Event,
        cache: &mut CacheTable,
        stats: &mut Statistics,
        now: u64,
        clock: i64,
    ) -> (a: Action)
        requires
            reg.wf(),
            old(self).wf(*reg),
            old(cache).wf(),
            old(stats).wf(),
        ensures
            final(self).wf(*reg),
            final(cache).wf(),
            final(stats).wf(),
            final(self).ctx.request == old(self).ctx.request,
            final(self).ctx.client_addr == old(self).ctx.client_addr,
            old(self).ctx.id_consistent() ==> final(self).ctx.id_consistent(),
            (a is Finished) <==> (old(self).stack@.len() == 0 && old(self).waiting == Waiting::Idle),
            a matches Action::Finished(res) ==> res == old(self).last && final(self).ctx == old(self).ctx
                && final(self).stack@.len() == 0,
            old(self).waiting != Waiting::Idle ==> a is Continue && final(self).stack == old(self).stack
                && resumed(*reg, old(self).waiting, old(self).ctx, *final(self), event)
                && *final(cache) == *old(cache) && *final(stats) == *old(stats),
            a is Finished ==> *final(cache) == *old(cache) && *final(stats) == *old(stats),
            old(self).waiting == Waiting::Idle && old(self).stack@.len() > 0 ==> ({
                let rest = old(self).stack@.drop_last();
                let ctx = old(self).ctx;
                let was = old(self).last;
                let after = *final(self);
                match old(self).stack@.last() {
                    Frame::Walk { owner, branch, pos } => {
                        &&& after.ctx == ctx
                        &&& was is Err ==> after.stack@ == rest && after.last == was
                        &&& was is Ok ==> after.stack@ == walk_next(*reg, rest, owner, branch, pos, ctx)
                        &&& *final(cache) == *old(cache)
                        &&& *final(stats) == *old(stats)
                    },
                    Frame::Rescue { owner } => {
                        &&& after.ctx == ctx
                        &&& after.last is Ok
                        &&& after.stack@ == rescue_next(rest, secondary_of(reg.plugins@[owner as int]), was)
                        &&& *final(cache) == *old(cache)
                        &&& *final(stats) == *old(stats)
                    },
                    Frame::Fill { owner, key } => {
                        let tbl = *final(cache);
                        &&& after.ctx == ctx
                        &&& after.stack@ == rest
                        &&& after.last == was
                        &&& (was is Ok && ctx.response is Some) ==> tbl.has((owner, key@))
                            && tbl.stored((owner, key@)) == (ctx.response->0@, expiry(now, ttl_of(reg.plugins@[owner as int])))
                            && others_kept(*old(cache), tbl, (owner, key@))
                        &&& !(was is Ok && ctx.response is Some) ==> tbl == *old(cache)
                        &&& *final(stats) == *old(stats)
                    },
                    Frame::Enter(i) => {
                        &&& after.last is Ok
                        &&& entered(*reg, i, rest, ctx, after, *old(cache), *final(cache), *old(stats), *final(stats), a, now, clock)
                    },
                }
            }),
    {
        if self.waiting != Waiting::Idle {
            self.resume(reg, event);
            return Action::Continue;
        }
        let ghost before = *self;
        match self.stack.pop() {
            None => Action::Finished(self.last),
            Some(frame) => {
                assert(frame == before.stack@.last());
                assert(self.stack@ == before.stack@.drop_last());
                assert(frame_ok(*reg, frame));
                match frame {
                    Frame::Walk { owner, branch, pos } => {
                        if self.last.is_ok() {
                            self.walk(reg, owner, branch, pos);
                        }
                        Action::Continue
                    },
                    Frame::Rescue { owner } => {
                        if self.last.is_err() {
                            self.last = Ok(());
                            match &reg.plugins[owner] {
                                Plugin::Fallback(f) => {
                                    proof {
                                        assert(crate::registry::refs_below(reg.plugins@[owner as int], owner as int));
                                    }
                                    self.stack.push(Frame::Enter(f.secondary));
                                },
                                _ => {},
                            }
                        }
                        Action::Continue
                    },
                    Frame::Fill { owner, key } => {
                        if self.last.is_ok() {
                            match &self.ctx.response {
                                Some(m) => {
                                    let ttl = match &reg.plugins[owner] {
                                        Plugin::Cache(c) => c.ttl_ms,
                                        _ => 0,
                                    };
                                    cache.insert(owner, key, m.duplicate(), expiry_of(now, ttl));
                                },
                                None => {},
                            }
                        }
                        Action::Continue
                    },
                    Frame::Enter(i) => self.enter(reg, i, cache, stats, now, clock),
                }
            },
        }
    }
}

} // verus!
