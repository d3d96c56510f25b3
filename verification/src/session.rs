//! The session engine: activity recording, message routing, handler
//! registration, and the supervised reconnect loop over a trace of
//! connection attempts. The live loop (connecting, reading the stream,
//! delivering sends) is the caller's; the decisions are all here.

use vstd::prelude::*;

use crate::context::{
    default_prefix, find_user, resolve_prefix, touch_ok, touch_users, Context, ContextView,
    DEFAULT_PREFIX,
};
use crate::error::BotError;
use crate::gateway::{
    clone_mentions, sends_view, Event, EventView, Message, MessageView, OnlineStatus,
    PossibleServer, PossibleServerView, Presence, SendMessage, SendView, ServerInfoView,
    StateSnapshot,
};
use crate::message_handler::{
    dispatch_spec, DispatchResult, Handler, HandlerView, MessageHandlerStore,
};
use crate::models::{User, MAX_TIMESTAMP};
use crate::text::{starts_with, str_starts_with, strip_prefix_repeated, strip_reps};

verus! {

/// The stored last-seen timestamp of a platform user, if any. `None`
/// covers both a user that was never seen and a record without a
/// timestamp; the two are not distinguished here.
pub open spec fn seen_time(users: Seq<User>, did: u64) -> Option<u64> {
    match find_user(users, did as i64) {
        Some(u) => u.last_seen,
        None => None,
    }
}

/// Looks up when the platform user `did` was last seen.
pub fn get_last_seen_time(ctx: &Context, did: u64) -> (r: Result<Option<u64>, BotError>)
    ensures
        r == Ok::<Option<u64>, BotError>(seen_time(ctx@.users, did)),
{
    let key = #[verifier::truncate] (did as i64);
    match ctx.users.find(key) {
        Some(u) => Ok(u.last_seen),
        None => Ok(None),
    }
}

/// Records activity for the platform user `uid` at time `now`: exactly
/// one record for `uid` exists afterwards and it carries `now`; every
/// other user's records are untouched.
pub fn user_seen(ctx: &mut Context, uid: u64, now: u64) -> (r: Result<(), BotError>)
    requires
        old(ctx).wf(),
        now <= MAX_TIMESTAMP,
    ensures
        final(ctx).wf(),
        final(ctx)@ == (ContextView {
            users: final(ctx)@.users,
            users_next_id: final(ctx)@.users_next_id,
            ..old(ctx)@
        }),
        touch_ok(old(ctx)@.users, old(ctx)@.users_next_id, uid as i64) <==> (r is Ok),
        match r {
            Ok(_) => {
                &&& seen_time(final(ctx)@.users, uid) == Some(now)
                &&& crate::context::count_for(final(ctx)@.users, uid as i64) == 1
                &&& final(ctx)@.users == touch_users(
                    old(ctx)@.users,
                    old(ctx)@.users_next_id,
                    uid as i64,
                    now,
                ).0
                &&& final(ctx)@.users_next_id as int == touch_users(
                    old(ctx)@.users,
                    old(ctx)@.users_next_id,
                    uid as i64,
                    now,
                ).1
                &&& forall|o: i64|
                    o != uid as i64 ==> #[trigger] find_user(final(ctx)@.users, o) == find_user(
                        old(ctx)@.users,
                        o,
                    ) && crate::context::count_for(final(ctx)@.users, o)
                        == crate::context::count_for(old(ctx)@.users, o)
            },
            Err(e) => {
                &&& final(ctx)@ == old(ctx)@
                &&& e.chain() == seq!["Error saving new user"@]
            },
        },
{
    match ctx.user_seen(uid, now) {
        Ok(_) => Ok(()),
        Err(e) => Err(e),
    }
}

/// What processing one inbound message does: resolve the channel's
/// prefix (the server's override, or the default for direct channels);
/// when the content starts with it, strip every leading repetition of
/// it and dispatch the remainder; otherwise do nothing.
pub open spec fn process_message_spec(
    m: MessageView,
    entries: Seq<(Seq<char>, HandlerView)>,
    c: ContextView,
) -> DispatchResult {
    let prefix = match m.server_id {
        Some(sid) => resolve_prefix(c.server_prefixes, sid),
        None => default_prefix(),
    };
    if starts_with(m.content, prefix) {
        dispatch_spec(
            entries,
            MessageView { content: strip_reps(m.content, prefix), ..m },
            c,
        )
    } else {
        DispatchResult { sends: Seq::empty(), ctx: c }
    }
}

/// Routes one inbound text message: when it carries the channel's
/// command prefix, the prefix is stripped and the rest dispatched.
pub fn process_message(msg: &Message, mhs: &MessageHandlerStore, ctx: &mut Context) -> (sends:
    Vec<SendMessage>)
    requires
        old(ctx).wf(),
    ensures
        final(ctx).wf(),
        sends_view(sends@) == process_message_spec(msg@, mhs@, old(ctx)@).sends,
        final(ctx)@ == process_message_spec(msg@, mhs@, old(ctx)@).ctx,
{
    let prefix: String = match msg.server_id {
        Some(sid) => ctx.server_prefixes.resolve(sid),
        None => DEFAULT_PREFIX.to_owned(),
    };
    proof {
        match msg@.server_id {
            Some(sid) => {
                ctx.server_prefixes.lemma_resolve_valid(sid);
            },
            None => {
                reveal_strlit("!");
                assert(prefix@.len() > 0);
            },
        }
    }
    let is_command = str_starts_with(msg.content.as_str(), prefix.as_str());
    if is_command {
        let stripped = strip_prefix_repeated(msg.content.as_str(), prefix.as_str());
        let m2 = Message {
            content: stripped,
            channel_id: msg.channel_id,
            author_id: msg.author_id,
            server_id: msg.server_id,
            mentions: clone_mentions(&msg.mentions),
        };
        proof {
            assert(m2@ =~= (MessageView {
                content: strip_reps(msg@.content, prefix@),
                ..msg@
            }));
        }
        mhs.call_handler(&m2, ctx)
    } else {
        proof {
            assert(sends_view(Seq::<SendMessage>::empty()) =~= Seq::<SendView>::empty());
        }
        Vec::new()
    }
}

/// What one routing step leaves behind: the queued sends, the context,
/// and the error chain of a failed store operation, if one failed.
#[verifier::ext_equal]
pub struct StepResult {
    pub sends: Seq<SendView>,
    pub ctx: ContextView,
    pub err: Option<Seq<Seq<char>>>,
}

/// Recording activity as one routing step: the store is updated when
/// the upsert can succeed, and the failure is reported otherwise.
pub open spec fn touch_step(c: ContextView, uid: u64, now: u64) -> StepResult {
    if touch_ok(c.users, c.users_next_id, uid as i64) {
        StepResult {
            sends: Seq::empty(),
            ctx: ContextView {
                users: touch_users(c.users, c.users_next_id, uid as i64, now).0,
                users_next_id: touch_users(c.users, c.users_next_id, uid as i64, now).1 as i32,
                ..c
            },
            err: None,
        }
    } else {
        StepResult { sends: Seq::empty(), ctx: c, err: Some(seq!["Error saving new user"@]) }
    }
}

/// Recording activity for each listed presence that is not offline, in
/// order, stopping at the first store failure.
pub open spec fn presences_step(c: ContextView, ps: Seq<Presence>, now: u64) -> StepResult
    decreases ps.len(),
{
    if ps.len() == 0 {
        StepResult { sends: Seq::empty(), ctx: c, err: None }
    } else {
        let first = if ps[0].status != OnlineStatus::Offline {
            touch_step(c, ps[0].user_id, now)
        } else {
            StepResult { sends: Seq::empty(), ctx: c, err: None }
        };
        if first.err is Some {
            first
        } else {
            presences_step(first.ctx, ps.skip(1), now)
        }
    }
}

/// What handling one inbound message event does: record the author's
/// activity, then process the message.
pub open spec fn message_create_spec(
    m: MessageView,
    entries: Seq<(Seq<char>, HandlerView)>,
    c: ContextView,
    now: u64,
) -> StepResult {
    let t = touch_step(c, m.author_id, now);
    if t.err is Some {
        t
    } else {
        let d = process_message_spec(m, entries, t.ctx);
        StepResult { sends: d.sends, ctx: d.ctx, err: None }
    }
}

/// What handling one server announcement does: an online server is
/// appended to the known-servers list and every non-offline presence
/// recorded; an unavailable server is ignored.
pub open spec fn server_create_spec(s: PossibleServerView, c: ContextView, now: u64)
    -> StepResult {
    match s {
        PossibleServerView::Online(js) => presences_step(
            ContextView { servers: c.servers.push(js.server_id), ..c },
            js.presences,
            now,
        ),
        PossibleServerView::Offline(_) => StepResult {
            sends: Seq::empty(),
            ctx: c,
            err: None,
        },
    }
}

/// The event router's classification table: which events record
/// activity for whom, and which are ignored.
#[verifier::opaque]
pub open spec fn route_spec(
    entries: Seq<(Seq<char>, HandlerView)>,
    e: EventView,
    c: ContextView,
    now: u64,
) -> StepResult {
    match e {
        EventView::MessageCreate(m) => message_create_spec(m, entries, c, now),
        EventView::ServerCreate(s) => server_create_spec(s, c, now),
        EventView::ReactionAdd { user_id } => touch_step(c, user_id, now),
        EventView::TypingStart { user_id } => touch_step(c, user_id, now),
        EventView::PresenceUpdate { presence } => if presence.status != OnlineStatus::Offline {
            touch_step(c, presence.user_id, now)
        } else {
            StepResult { sends: Seq::empty(), ctx: c, err: None }
        },
        EventView::Unknown => StepResult { sends: Seq::empty(), ctx: c, err: None },
    }
}

/// Handles one inbound message: records the author's activity, then
/// processes the message. A store failure is returned and the message
/// is not dispatched.
pub fn message_create_event(ctx: &mut Context, mhs: &MessageHandlerStore, msg: &Message, now: u64)
    -> (r: Result<Vec<SendMessage>, BotError>)
    requires
        old(ctx).wf(),
        now <= MAX_TIMESTAMP,
    ensures
        final(ctx).wf(),
        final(ctx)@ == message_create_spec(msg@, mhs@, old(ctx)@, now).ctx,
        match r {
            Ok(sends) => sends_view(sends@) == message_create_spec(msg@, mhs@, old(ctx)@, now).sends
                && message_create_spec(msg@, mhs@, old(ctx)@, now).err is None,
            Err(e) => message_create_spec(msg@, mhs@, old(ctx)@, now).err == Some(e.chain())
                && message_create_spec(msg@, mhs@, old(ctx)@, now).sends == Seq::<
                SendView,
            >::empty(),
        },
{
    match user_seen(ctx, msg.author_id, now) {
        Ok(_) => {
            proof {
                assert(ctx@ =~= touch_step(old(ctx)@, msg@.author_id, now).ctx);
            }
            Ok(process_message(msg, mhs, ctx))
        },
        Err(e) => Err(e),
    }
}

/// Handles one server announcement: appends an online server to the
/// known-servers list and records activity for every member whose
/// presence is not offline.
pub fn server_create_event(ctx: &mut Context, srv: &PossibleServer, now: u64) -> (r: Result<
    (),
    BotError,
>)
    requires
        old(ctx).wf(),
        now <= MAX_TIMESTAMP,
    ensures
        final(ctx).wf(),
        final(ctx)@ == server_create_spec(srv@, old(ctx)@, now).ctx,
        match r {
            Ok(_) => server_create_spec(srv@, old(ctx)@, now).err is None,
            Err(e) => server_create_spec(srv@, old(ctx)@, now).err == Some(e.chain()),
        },
        server_create_spec(srv@, old(ctx)@, now).sends == Seq::<SendView>::empty(),
{
    match srv {
        PossibleServer::Offline(_) => {
            proof {
                lemma_presences_no_sends(old(ctx)@, Seq::<Presence>::empty(), now);
            }
            Ok(())
        },
        PossibleServer::Online(js) => {
            ctx.servers.push(js.server_id);
            proof {
                assert(ctx@ =~= (ContextView {
                    servers: old(ctx)@.servers.push(js@.server_id),
                    ..old(ctx)@
                }));
                lemma_presences_no_sends(ctx@, js@.presences, now);
            }
            let ghost c1 = ctx@;
            let ghost ps_v = js.presences@;
            let ghost spec_r = server_create_spec(srv@, old(ctx)@, now);
            let n = js.presences.len();
            let mut i: usize = 0;
            proof {
                assert(ps_v.skip(0) =~= ps_v);
                assert(spec_r == presences_step(c1, ps_v, now));
            }
            while i < n
                invariant
                    i <= n,
                    n == js.presences@.len(),
                    ps_v == js.presences@,
                    ctx.wf(),
                    now <= MAX_TIMESTAMP,
                    spec_r == server_create_spec(srv@, old(ctx)@, now),
                    spec_r.sends == Seq::<SendView>::empty(),
                    spec_r.err == presences_step(ctx@, ps_v.skip(i as int), now).err,
                    spec_r.ctx == presences_step(ctx@, ps_v.skip(i as int), now).ctx,
                decreases n - i,
            {
                let ghost rem = ps_v.skip(i as int);
                let ghost c_pre = ctx@;
                proof {
                    assert(rem[0] == ps_v[i as int]);
                    assert(rem.skip(1) =~= ps_v.skip(i as int + 1));
                }
                let p = js.presences[i];
                if !matches!(p.status, OnlineStatus::Offline) {
                    match user_seen(ctx, p.user_id, now) {
                        Ok(_) => {
                            proof {
                                assert(ctx@ =~= touch_step(c_pre, p.user_id, now).ctx);
                                assert(presences_step(c_pre, rem, now) == presences_step(
                                    ctx@,
                                    rem.skip(1),
                                    now,
                                ));
                            }
                        },
                        Err(e) => {
                            proof {
                                assert(ctx@ == c_pre);
                                assert(touch_step(c_pre, p.user_id, now).err == Some(e.chain()));
                                assert(presences_step(c_pre, rem, now).err == Some(e.chain()));
                                assert(presences_step(c_pre, rem, now).ctx == c_pre);
                            }
                            return Err(e);
                        },
                    }
                }
                i = i + 1;
            }
            proof {
                assert(ps_v.skip(n as int) =~= Seq::<Presence>::empty());
            }
            Ok(())
        },
    }
}

/// A presence sweep queues no sends.
pub proof fn lemma_presences_no_sends(c: ContextView, ps: Seq<Presence>, now: u64)
    ensures
        presences_step(c, ps, now).sends == Seq::<SendView>::empty(),
    decreases ps.len(),
{
    if ps.len() > 0 {
        let first = if ps[0].status != OnlineStatus::Offline {
            touch_step(c, ps[0].user_id, now)
        } else {
            StepResult { sends: Seq::empty(), ctx: c, err: None }
        };
        if first.err is None {
            lemma_presences_no_sends(first.ctx, ps.skip(1), now);
        }
    }
}

/// Routes one inbound event per the classification table: messages and
/// reactions, typing and presence record activity; text messages are
/// then dispatched; unknown events are ignored. A store failure is
/// returned to the caller.
pub fn route(ctx: &mut Context, mhs: &MessageHandlerStore, event: &Event, now: u64) -> (r: Result<
    Vec<SendMessage>,
    BotError,
>)
    requires
        old(ctx).wf(),
        now <= MAX_TIMESTAMP,
    ensures
        final(ctx).wf(),
        final(ctx)@ == route_spec(mhs@, event@, old(ctx)@, now).ctx,
        match r {
            Ok(sends) => sends_view(sends@) == route_spec(mhs@, event@, old(ctx)@, now).sends
                && route_spec(mhs@, event@, old(ctx)@, now).err is None,
            Err(e) => route_spec(mhs@, event@, old(ctx)@, now).err == Some(e.chain())
                && route_spec(mhs@, event@, old(ctx)@, now).sends == Seq::<SendView>::empty(),
        },
{
    proof {
        reveal(route_spec);
        assert(sends_view(Seq::<SendMessage>::empty()) =~= Seq::<SendView>::empty());
    }
    match event {
        Event::MessageCreate(msg) => message_create_event(ctx, mhs, msg, now),
        Event::ServerCreate(srv) => {
            match server_create_event(ctx, srv, now) {
                Ok(_) => Ok(Vec::new()),
                Err(e) => Err(e),
            }
        },
        Event::ReactionAdd { user_id } => {
            match user_seen(ctx, *user_id, now) {
                Ok(_) => {
                    proof {
                        assert(ctx@ =~= touch_step(old(ctx)@, *user_id, now).ctx);
                    }
                    Ok(Vec::new())
                },
                Err(e) => Err(e),
            }
        },
        Event::TypingStart { user_id } => {
            match user_seen(ctx, *user_id, now) {
                Ok(_) => {
                    proof {
                        assert(ctx@ =~= touch_step(old(ctx)@, *user_id, now).ctx);
                    }
                    Ok(Vec::new())
                },
                Err(e) => Err(e),
            }
        },
        Event::PresenceUpdate { presence } => {
            if !matches!(presence.status, OnlineStatus::Offline) {
                match user_seen(ctx, presence.user_id, now) {
                    Ok(_) => {
                        proof {
                            assert(ctx@ =~= touch_step(old(ctx)@, presence.user_id, now).ctx);
                        }
                        Ok(Vec::new())
                    },
                    Err(e) => Err(e),
                }
            } else {
                Ok(Vec::new())
            }
        },
        Event::Unknown => Ok(Vec::new()),
    }
}

/// Registers the built-in command handlers, in a fixed order, and
/// returns how many registrations the store then holds.
pub fn register_handlers(handler_store: &mut MessageHandlerStore) -> (r: Result<usize, BotError>)
    ensures
        final(handler_store)@ == old(handler_store)@ + seq![
            ("set-prefix"@, HandlerView::SetPrefix),
            ("last-seen"@, HandlerView::LastSeen),
            ("last-seen-all"@, HandlerView::LastSeenAll),
            ("help"@, HandlerView::Help),
        ],
        match r {
            Ok(n) => n == final(handler_store)@.len(),
            Err(_) => false,
        },
{
    handler_store.register_handler("set-prefix", Handler::SetPrefix);
    handler_store.register_handler("last-seen", Handler::LastSeen);
    handler_store.register_handler("last-seen-all", Handler::LastSeenAll);
    handler_store.register_handler("help", Handler::Help);
    proof {
        assert(handler_store@ =~= old(handler_store)@ + seq![
            ("set-prefix"@, HandlerView::SetPrefix),
            ("last-seen"@, HandlerView::LastSeen),
            ("last-seen-all"@, HandlerView::LastSeenAll),
            ("help"@, HandlerView::Help),
        ]);
    }
    Ok(handler_store.get_handler_count())
}

/// Registers the debug-only handlers; callers that want them opt in
/// after [`register_handlers`].
pub fn register_debug_handlers(handler_store: &mut MessageHandlerStore) -> (r: Result<
    (),
    BotError,
>)
    ensures
        final(handler_store)@ == old(handler_store)@ + seq![
            ("debug-print-prefixes"@, HandlerView::DebugPrintPrefixes),
            ("debug-error-test"@, HandlerView::DebugTestError),
        ],
        r is Ok,
{
    handler_store.register_handler("debug-print-prefixes", Handler::DebugPrintPrefixes);
    handler_store.register_handler("debug-error-test", Handler::DebugTestError);
    proof {
        assert(handler_store@ =~= old(handler_store)@ + seq![
            ("debug-print-prefixes"@, HandlerView::DebugPrintPrefixes),
            ("debug-error-test"@, HandlerView::DebugTestError),
        ]);
    }
    Ok(())
}

/// One event of a connection's stream, with the time it arrived.
pub struct TimedEvent {
    pub at: u64,
    pub event: Event,
}

#[verifier::ext_equal]
pub struct TimedEventView {
    pub at: u64,
    pub event: EventView,
}

impl View for TimedEvent {
    type V = TimedEventView;

    open spec fn view(&self) -> TimedEventView {
        TimedEventView { at: self.at, event: self.event@ }
    }
}

/// One connection attempt: a successful connect with its state snapshot
/// and the events its stream delivered before failing, or a failed
/// connect with its error.
pub enum ConnectAttempt {
    Connected(StateSnapshot, Vec<TimedEvent>),
    Failed(BotError),
}

#[verifier::ext_equal]
pub enum ConnectAttemptView {
    Connected(Seq<ServerInfoView>, Seq<TimedEventView>),
    Failed(Seq<Seq<char>>),
}

impl View for ConnectAttempt {
    type V = ConnectAttemptView;

    open spec fn view(&self) -> ConnectAttemptView {
        match self {
            ConnectAttempt::Connected(s, evs) => ConnectAttemptView::Connected(
                s@,
                evs@.map_values(|e: TimedEvent| e@),
            ),
            ConnectAttempt::Failed(e) => ConnectAttemptView::Failed(e.chain()),
        }
    }
}

/// How the supervisor ended: a fatal error after the failure budget was
/// exhausted, or the end of the trace of connection attempts.
pub enum RunOutcome {
    Fatal(BotError),
    TraceEnded,
}

#[verifier::ext_equal]
pub enum RunOutcomeView {
    Fatal(Seq<Seq<char>>),
    TraceEnded,
}

impl View for RunOutcome {
    type V = RunOutcomeView;

    open spec fn view(&self) -> RunOutcomeView {
        match self {
            RunOutcome::Fatal(e) => RunOutcomeView::Fatal(e.chain()),
            RunOutcome::TraceEnded => RunOutcomeView::TraceEnded,
        }
    }
}

/// Every event timestamp is representable.
pub open spec fn events_ok(evs: Seq<TimedEventView>) -> bool {
    forall|k: int| 0 <= k < evs.len() ==> (#[trigger] evs[k]).at <= MAX_TIMESTAMP
}

/// Every connection attempt carries representable event timestamps.
pub open spec fn trace_ok(tr: Seq<ConnectAttemptView>) -> bool {
    forall|k: int|
        0 <= k < tr.len() ==> match #[trigger] tr[k] {
            ConnectAttemptView::Connected(_, evs) => events_ok(evs),
            ConnectAttemptView::Failed(_) => true,
        }
}

/// What the pump loop leaves behind after one connection's events.
#[verifier::ext_equal]
pub struct PumpResult {
    pub sends: Seq<SendView>,
    pub ctx: ContextView,
}

/// Pumping one connection's events in order: each event is routed; a
/// per-event failure is contained (the pump continues), and the sends
/// accumulate.
pub open spec fn pump_events(
    entries: Seq<(Seq<char>, HandlerView)>,
    evs: Seq<TimedEventView>,
    c: ContextView,
) -> PumpResult
    decreases evs.len(),
{
    if evs.len() == 0 {
        PumpResult { sends: Seq::empty(), ctx: c }
    } else {
        let s = route_spec(entries, evs[0].event, c, evs[0].at);
        let rest = pump_events(entries, evs.skip(1), s.ctx);
        PumpResult { sends: s.sends + rest.sends, ctx: rest.ctx }
    }
}

/// Pumps one connection's events into the router, in order. A routing
/// error is contained: one bad event must not kill the session.
pub fn pump(ctx: &mut Context, mhs: &MessageHandlerStore, events: Vec<TimedEvent>) -> (sends: Vec<
    SendMessage,
>)
    requires
        old(ctx).wf(),
        events_ok(events@.map_values(|e: TimedEvent| e@)),
    ensures
        final(ctx).wf(),
        sends_view(sends@) == pump_events(
            mhs@,
            events@.map_values(|e: TimedEvent| e@),
            old(ctx)@,
        ).sends,
        final(ctx)@ == pump_events(mhs@, events@.map_values(|e: TimedEvent| e@), old(ctx)@).ctx,
{
    let ghost ev_full = events@.map_values(|e: TimedEvent| e@);
    let ghost full = pump_events(mhs@, ev_full, old(ctx)@);
    let mut events = events;
    let mut sends: Vec<SendMessage> = Vec::new();
    proof {
        assert(sends_view(sends@) =~= Seq::<SendView>::empty());
        assert(Seq::<SendView>::empty() + full.sends =~= full.sends);
    }
    while events.len() > 0
        invariant
            ctx.wf(),
            events_ok(events@.map_values(|e: TimedEvent| e@)),
            full.sends == sends_view(sends@) + pump_events(
                mhs@,
                events@.map_values(|e: TimedEvent| e@),
                ctx@,
            ).sends,
            full.ctx == pump_events(mhs@, events@.map_values(|e: TimedEvent| e@), ctx@).ctx,
        decreases events@.len(),
    {
        let ghost rem = events@.map_values(|e: TimedEvent| e@);
        let e = events.remove(0);
        proof {
            assert(rem[0] == e@);
            assert(events@.map_values(|ev: TimedEvent| ev@) =~= rem.skip(1));
        }
        match route(ctx, mhs, &e.event, e.at) {
            Ok(mut new_sends) => {
                proof {
                    assert(sends_view(sends@ + new_sends@) =~= sends_view(sends@) + sends_view(
                        new_sends@,
                    ));
                }
                sends.append(&mut new_sends);
            },
            Err(_e) => {
                // per-event failure: contained, the pump continues
            },
        }
    }
    proof {
        assert(events@.map_values(|e: TimedEvent| e@) =~= Seq::<TimedEventView>::empty());
        assert(full.sends =~= sends_view(sends@));
    }
    sends
}

/// What the supervisor leaves behind: how it ended, the accumulated
/// sends, the context, and how many connection attempts it made.
#[verifier::ext_equal]
pub struct RunModel {
    pub outcome: RunOutcomeView,
    pub sends: Seq<SendView>,
    pub ctx: ContextView,
    pub attempts: nat,
}

/// The supervisor over a trace of connection attempts, carrying the
/// consecutive-failure count: a successful connect resets the count,
/// installs the snapshot, and pumps its events; a failed connect
/// increments the count and is fatal when it reaches the budget.
pub open spec fn run_from(
    entries: Seq<(Seq<char>, HandlerView)>,
    trace: Seq<ConnectAttemptView>,
    fails: nat,
    max: u64,
    c: ContextView,
) -> RunModel
    decreases trace.len(),
{
    if trace.len() == 0 {
        RunModel { outcome: RunOutcomeView::TraceEnded, sends: Seq::empty(), ctx: c, attempts: 0 }
    } else {
        match trace[0] {
            ConnectAttemptView::Connected(snapshot, evs) => {
                let p = pump_events(entries, evs, ContextView { state: Some(snapshot), ..c });
                let rest = run_from(entries, trace.skip(1), 0, max, p.ctx);
                RunModel {
                    outcome: rest.outcome,
                    sends: p.sends + rest.sends,
                    ctx: rest.ctx,
                    attempts: 1 + rest.attempts,
                }
            },
            ConnectAttemptView::Failed(chain) => {
                if fails + 1 >= max {
                    RunModel {
                        outcome: RunOutcomeView::Fatal(seq!["Failed to connect"@] + chain),
                        sends: Seq::empty(),
                        ctx: c,
                        attempts: 1,
                    }
                } else {
                    let rest = run_from(entries, trace.skip(1), fails + 1, max, c);
                    RunModel {
                        outcome: rest.outcome,
                        sends: rest.sends,
                        ctx: rest.ctx,
                        attempts: 1 + rest.attempts,
                    }
                }
            },
        }
    }
}

/// The supervised session loop, driven by a trace of connection
/// attempts. Each successful connect resets the failure counter,
/// installs the fresh platform-state snapshot, and pumps that
/// connection's events; each failed connect counts against the budget,
/// and the budget's exhaustion is fatal. Returns how the loop ended,
/// the accumulated outbound sends, and the number of connection
/// attempts made.
/// The equation the supervisor loop maintains: the whole run equals
/// what was already accumulated plus the run over the remaining trace.
pub open spec fn run_loop_inv(
    full: RunModel,
    entries: Seq<(Seq<char>, HandlerView)>,
    rv: Seq<ConnectAttemptView>,
    fails: nat,
    max: u64,
    c: ContextView,
    sends: Seq<SendView>,
    attempts: nat,
) -> bool {
    let rest = run_from(entries, rv, fails, max, c);
    &&& full.outcome == rest.outcome
    &&& full.sends == sends + rest.sends
    &&& full.ctx == rest.ctx
    &&& full.attempts == attempts + rest.attempts
}

#[verifier::rlimit(100)]
pub fn run(
    ctx: &mut Context,
    mhs: &MessageHandlerStore,
    trace: Vec<ConnectAttempt>,
    max_consecutive_failures: u64,
) -> (r: (RunOutcome, Vec<SendMessage>, usize))
    requires
        old(ctx).wf(),
        max_consecutive_failures >= 1,
        trace_ok(trace@.map_values(|a: ConnectAttempt| a@)),
    ensures
        final(ctx).wf(),
        r.0@ == run_from(
            mhs@,
            trace@.map_values(|a: ConnectAttempt| a@),
            0,
            max_consecutive_failures,
            old(ctx)@,
        ).outcome,
        sends_view(r.1@) == run_from(
            mhs@,
            trace@.map_values(|a: ConnectAttempt| a@),
            0,
            max_consecutive_failures,
            old(ctx)@,
        ).sends,
        final(ctx)@ == run_from(
            mhs@,
            trace@.map_values(|a: ConnectAttempt| a@),
            0,
            max_consecutive_failures,
            old(ctx)@,
        ).ctx,
        r.2 == run_from(
            mhs@,
            trace@.map_values(|a: ConnectAttempt| a@),
            0,
            max_consecutive_failures,
            old(ctx)@,
        ).attempts,
{
    let max = max_consecutive_failures;
    let ghost tv = trace@.map_values(|a: ConnectAttempt| a@);
    let ghost full = run_from(mhs@, tv, 0, max, old(ctx)@);
    let ghost total = trace@.len();
    let mut tr = trace;
    let n0 = tr.len();
    proof {
        assert(total == n0);
    }
    let mut fails: u64 = 0;
    let mut attempts: usize = 0;
    let mut sends: Vec<SendMessage> = Vec::new();
    proof {
        assert(sends_view(sends@) =~= Seq::<SendView>::empty());
        assert(Seq::<SendView>::empty() + full.sends =~= full.sends);
        assert(run_loop_inv(full, mhs@, tv, 0, max, old(ctx)@, sends_view(sends@), 0));
    }
    while tr.len() > 0
        invariant
            ctx.wf(),
            max == max_consecutive_failures,
            max >= 1,
            fails < max,
            total <= usize::MAX,
            attempts + tr@.len() == total,
            trace_ok(tr@.map_values(|a: ConnectAttempt| a@)),
            full == run_from(
                mhs@,
                trace@.map_values(|a: ConnectAttempt| a@),
                0,
                max_consecutive_failures,
                old(ctx)@,
            ),
            run_loop_inv(
                full,
                mhs@,
                tr@.map_values(|a: ConnectAttempt| a@),
                fails as nat,
                max,
                ctx@,
                sends_view(sends@),
                attempts as nat,
            ),
        decreases tr@.len(),
    {
        let ghost rem = tr@.map_values(|a: ConnectAttempt| a@);
        let ghost c_pre = ctx@;
        let ghost sends_pre = sends_view(sends@);
        let ghost rest_pre = run_from(mhs@, rem, fails as nat, max, c_pre);
        let a = tr.remove(0);
        proof {
            assert(rem[0] == a@);
            assert(tr@.map_values(|x: ConnectAttempt| x@) =~= rem.skip(1));
            assert forall|k: int|
                0 <= k < rem.skip(1).len() implies match #[trigger] rem.skip(1)[k] {
                ConnectAttemptView::Connected(_, evs) => events_ok(evs),
                ConnectAttemptView::Failed(_) => true,
            } by {
                assert(rem.skip(1)[k] == rem[k + 1]);
            }
        }
        attempts = attempts + 1;
        match a {
            ConnectAttempt::Connected(snapshot, events) => {
                let ghost evs_v = events@.map_values(|e: TimedEvent| e@);
                proof {
                    assert(a@ == ConnectAttemptView::Connected(snapshot@, evs_v));
                    assert(events_ok(evs_v));
                }
                fails = 0;
                ctx.set_state(snapshot);
                let ghost c1 = ctx@;
                proof {
                    assert(c1 == (ContextView { state: Some(snapshot@), ..c_pre }));
                }
                let mut new_sends = pump(ctx, mhs, events);
                proof {
                    let p = pump_events(mhs@, evs_v, c1);
                    assert(sends_view(new_sends@) == p.sends);
                    assert(ctx@ == p.ctx);
                    let rest = run_from(mhs@, rem.skip(1), 0, max, p.ctx);
                    assert(rest_pre.outcome == rest.outcome);
                    assert(rest_pre.sends == p.sends + rest.sends);
                    assert(rest_pre.ctx == rest.ctx);
                    assert(rest_pre.attempts == 1 + rest.attempts);
                    assert(sends_view(sends@ + new_sends@) =~= sends_view(sends@) + sends_view(
                        new_sends@,
                    ));
                    assert(sends_pre + (p.sends + rest.sends) =~= (sends_pre + p.sends)
                        + rest.sends);
                }
                sends.append(&mut new_sends);
            },
            ConnectAttempt::Failed(e) => {
                proof {
                    assert(a@ == ConnectAttemptView::Failed(e.chain()));
                }
                fails = fails + 1;
                if fails >= max {
                    let fatal = e.wrap(String::from_str("Failed to connect"));
                    proof {
                        assert(rest_pre.outcome == RunOutcomeView::Fatal(
                            seq!["Failed to connect"@] + e.chain(),
                        ));
                        assert(rest_pre.sends == Seq::<SendView>::empty());
                        assert(full.sends =~= sends_view(sends@));
                        assert(fatal.chain() == seq!["Failed to connect"@] + e.chain());
                    }
                    return (RunOutcome::Fatal(fatal), sends, attempts);
                }
                proof {
                    let rest = run_from(mhs@, rem.skip(1), fails as nat, max, c_pre);
                    assert(rest_pre.outcome == rest.outcome);
                    assert(rest_pre.sends == rest.sends);
                    assert(rest_pre.ctx == rest.ctx);
                    assert(rest_pre.attempts == 1 + rest.attempts);
                }
            },
        }
    }
    proof {
        assert(tr@.map_values(|a: ConnectAttempt| a@) =~= Seq::<ConnectAttemptView>::empty());
        assert(run_from(
            mhs@,
            tr@.map_values(|a: ConnectAttempt| a@),
            fails as nat,
            max,
            ctx@,
        ).sends == Seq::<SendView>::empty());
        assert(full.sends =~= sends_view(sends@));
    }
    (RunOutcome::TraceEnded, sends, attempts)
}

/// Every attempt in the trace is a failed connect.
pub open spec fn all_failed(tr: Seq<ConnectAttemptView>) -> bool {
    forall|k: int| 0 <= k < tr.len() ==> (#[trigger] tr[k]) is Failed
}

proof fn lemma_failure_budget_from(
    entries: Seq<(Seq<char>, HandlerView)>,
    tr: Seq<ConnectAttemptView>,
    fails: nat,
    max: u64,
    c: ContextView,
)
    requires
        all_failed(tr),
        tr.len() >= 1,
        fails + tr.len() == max,
    ensures
        run_from(entries, tr, fails, max, c).outcome is Fatal,
        run_from(entries, tr, fails, max, c).attempts == tr.len(),
        run_from(entries, tr, fails, max, c).ctx == c,
        run_from(entries, tr, fails, max, c).sends == Seq::<SendView>::empty(),
    decreases tr.len(),
{
    assert(tr[0] is Failed);
    if tr.len() > 1 {
        assert(forall|k: int| 0 <= k < tr.skip(1).len() ==> tr.skip(1)[k] == tr[k + 1]);
        lemma_failure_budget_from(entries, tr.skip(1), fails + 1, max, c);
    }
}

/// The supervisor's failure budget: when every connection attempt in
/// the trace fails and the trace is exactly as long as the budget, the
/// supervisor ends fatally, having made exactly that many attempts and
/// having changed nothing.
pub proof fn lemma_failure_budget(
    entries: Seq<(Seq<char>, HandlerView)>,
    tr: Seq<ConnectAttemptView>,
    max: u64,
    c: ContextView,
)
    requires
        all_failed(tr),
        max >= 1,
        tr.len() == max,
    ensures
        run_from(entries, tr, 0, max, c).outcome is Fatal,
        run_from(entries, tr, 0, max, c).attempts == max,
        run_from(entries, tr, 0, max, c).ctx == c,
        run_from(entries, tr, 0, max, c).sends == Seq::<SendView>::empty(),
{
    lemma_failure_budget_from(entries, tr, 0, max, c);
}

/// Positions `i` to `i + len` of the trace all hold failed connects.
pub open spec fn failed_window(tr: Seq<ConnectAttemptView>, i: int, len: int) -> bool {
    forall|k: int| i <= k < i + len ==> 0 <= k < tr.len() && (#[trigger] tr[k]) is Failed
}

proof fn lemma_window_unshift(tr: Seq<ConnectAttemptView>, i: int, len: int)
    requires
        tr.len() > 0,
        0 <= i,
        failed_window(tr.skip(1), i, len),
    ensures
        failed_window(tr, i + 1, len),
{
    assert forall|k: int|
        i + 1 <= k < i + 1 + len implies 0 <= k < tr.len() && (#[trigger] tr[k]) is Failed by {
        assert(tr.skip(1)[k - 1] is Failed);
        assert(tr.skip(1)[k - 1] == tr[k]);
    }
}

proof fn lemma_window_shift(tr: Seq<ConnectAttemptView>, i: int, len: int)
    requires
        1 <= i,
        failed_window(tr, i, len),
    ensures
        failed_window(tr.skip(1), i - 1, len),
{
    assert forall|k: int|
        i - 1 <= k < i - 1 + len implies 0 <= k < tr.skip(1).len() && (#[trigger] tr.skip(1)[k])
        is Failed by {
        assert(tr[k + 1] is Failed);
        assert(tr.skip(1)[k] == tr[k + 1]);
    }
}

proof fn lemma_window_extend_head(tr: Seq<ConnectAttemptView>, len: int)
    requires
        tr.len() > 0,
        len >= 1,
        tr[0] is Failed,
        failed_window(tr.skip(1), 0, len - 1),
    ensures
        failed_window(tr, 0, len),
{
    assert forall|k: int|
        0 <= k < len implies 0 <= k < tr.len() && (#[trigger] tr[k]) is Failed by {
        if k > 0 {
            assert(tr.skip(1)[k - 1] is Failed);
            assert(tr.skip(1)[k - 1] == tr[k]);
        }
    }
}

proof fn lemma_window_behead(tr: Seq<ConnectAttemptView>, len: int)
    requires
        failed_window(tr, 0, len),
        len >= 1,
        tr.len() > 0,
    ensures
        tr[0] is Failed,
        failed_window(tr.skip(1), 0, len - 1),
{
    assert forall|k: int|
        0 <= k < len - 1 implies 0 <= k < tr.skip(1).len() && (#[trigger] tr.skip(1)[k])
        is Failed by {
        assert(tr[k + 1] is Failed);
        assert(tr.skip(1)[k] == tr[k + 1]);
    }
}

proof fn lemma_fatal_window_fwd(
    entries: Seq<(Seq<char>, HandlerView)>,
    tr: Seq<ConnectAttemptView>,
    fails: nat,
    max: u64,
    c: ContextView,
)
    requires
        fails < max,
        run_from(entries, tr, fails, max, c).outcome is Fatal,
    ensures
        (exists|i: int| 0 <= i && i + max <= tr.len() && failed_window(tr, i, max as int)) || (
        max - fails <= tr.len() && failed_window(tr, 0, max - fails)),
    decreases tr.len(),
{
    assert(tr.len() > 0);
    assert(forall|k: int| 0 <= k < tr.skip(1).len() ==> tr.skip(1)[k] == tr[k + 1]);
    match tr[0] {
        ConnectAttemptView::Connected(snapshot, evs) => {
            let p = pump_events(entries, evs, ContextView { state: Some(snapshot), ..c });
            lemma_fatal_window_fwd(entries, tr.skip(1), 0, max, p.ctx);
            if exists|i: int|
                0 <= i && i + max <= tr.skip(1).len() && failed_window(
                    tr.skip(1),
                    i,
                    max as int,
                ) {
                let i = choose|i: int|
                    0 <= i && i + max <= tr.skip(1).len() && failed_window(
                        tr.skip(1),
                        i,
                        max as int,
                    );
                lemma_window_unshift(tr, i, max as int);
                assert(failed_window(tr, i + 1, max as int));
            } else {
                assert(failed_window(tr.skip(1), 0, max as int));
                lemma_window_unshift(tr, 0, max as int);
                assert(failed_window(tr, 1, max as int));
            }
        },
        ConnectAttemptView::Failed(_) => {
            if fails + 1 >= max {
                assert(max - fails == 1);
                assert(failed_window(tr, 0, 1));
            } else {
                lemma_fatal_window_fwd(entries, tr.skip(1), fails + 1, max, c);
                if exists|i: int|
                    0 <= i && i + max <= tr.skip(1).len() && failed_window(
                        tr.skip(1),
                        i,
                        max as int,
                    ) {
                    let i = choose|i: int|
                        0 <= i && i + max <= tr.skip(1).len() && failed_window(
                            tr.skip(1),
                            i,
                            max as int,
                        );
                    lemma_window_unshift(tr, i, max as int);
                    assert(failed_window(tr, i + 1, max as int));
                } else {
                    assert(failed_window(tr.skip(1), 0, max - fails - 1));
                    lemma_window_extend_head(tr, max - fails);
                    assert(failed_window(tr, 0, max - fails));
                }
            }
        },
    }
}

proof fn lemma_window_fatal_bwd(
    entries: Seq<(Seq<char>, HandlerView)>,
    tr: Seq<ConnectAttemptView>,
    fails: nat,
    max: u64,
    c: ContextView,
)
    requires
        fails < max,
        (exists|i: int| 0 <= i && i + max <= tr.len() && failed_window(tr, i, max as int)) || (
        max - fails <= tr.len() && failed_window(tr, 0, max - fails)),
    ensures
        run_from(entries, tr, fails, max, c).outcome is Fatal,
    decreases tr.len(),
{
    assert(tr.len() > 0);
    assert(forall|k: int| 0 <= k < tr.skip(1).len() ==> tr.skip(1)[k] == tr[k + 1]);
    if max - fails <= tr.len() && failed_window(tr, 0, max - fails) {
        lemma_window_behead(tr, max - fails);
        assert(tr[0] is Failed);
        if fails + 1 >= max {
        } else {
            assert(failed_window(tr.skip(1), 0, max - fails - 1));
            lemma_window_fatal_bwd(entries, tr.skip(1), fails + 1, max, c);
        }
    } else {
        let i = choose|i: int|
            0 <= i && i + max <= tr.len() && failed_window(tr, i, max as int);
        if i == 0 {
            lemma_window_behead(tr, max as int);
            assert(tr[0] is Failed);
            if fails + 1 >= max {
            } else {
                assert(failed_window(tr.skip(1), 0, max as int - 1));
                assert forall|k: int|
                    0 <= k < max - fails - 1 implies 0 <= k < tr.skip(1).len() && (
                #[trigger] tr.skip(1)[k]) is Failed by {
                    assert(max - fails - 1 <= max as int - 1);
                }
                assert(failed_window(tr.skip(1), 0, max - fails - 1));
                lemma_window_fatal_bwd(entries, tr.skip(1), fails + 1, max, c);
            }
        } else {
            lemma_window_shift(tr, i, max as int);
            assert(failed_window(tr.skip(1), i - 1, max as int));
            match tr[0] {
                ConnectAttemptView::Connected(snapshot, evs) => {
                    let p = pump_events(
                        entries,
                        evs,
                        ContextView { state: Some(snapshot), ..c },
                    );
                    lemma_window_fatal_bwd(entries, tr.skip(1), 0, max, p.ctx);
                },
                ConnectAttemptView::Failed(_) => {
                    if fails + 1 >= max {
                    } else {
                        lemma_window_fatal_bwd(entries, tr.skip(1), fails + 1, max, c);
                    }
                },
            }
        }
    }
}

/// The supervisor ends fatally exactly when the trace holds a run of
/// `max` consecutive failed connection attempts; any successful connect
/// inside every such span resets the counter and keeps the session
/// alive.
pub proof fn lemma_fatal_iff_failure_window(
    entries: Seq<(Seq<char>, HandlerView)>,
    tr: Seq<ConnectAttemptView>,
    max: u64,
    c: ContextView,
)
    requires
        max >= 1,
    ensures
        run_from(entries, tr, 0, max, c).outcome is Fatal <==> exists|i: int|
            0 <= i && i + max <= tr.len() && failed_window(tr, i, max as int),
{
    if run_from(entries, tr, 0, max, c).outcome is Fatal {
        lemma_fatal_window_fwd(entries, tr, 0, max, c);
        if !(exists|i: int| 0 <= i && i + max <= tr.len() && failed_window(tr, i, max as int)) {
            assert(max - 0 <= tr.len() && failed_window(tr, 0, max - 0));
            assert(0 + max <= tr.len() && failed_window(tr, 0, max as int));
        }
    }
    if exists|i: int| 0 <= i && i + max <= tr.len() && failed_window(tr, i, max as int) {
        lemma_window_fatal_bwd(entries, tr, 0, max, c);
    }
}

/// Below the budget the supervisor keeps retrying: a trace of failed
/// connects shorter than the remaining budget is consumed whole
/// without a fatal outcome.
pub proof fn lemma_retry_below_budget(
    entries: Seq<(Seq<char>, HandlerView)>,
    tr: Seq<ConnectAttemptView>,
    fails: nat,
    max: u64,
    c: ContextView,
)
    requires
        all_failed(tr),
        fails + tr.len() < max,
    ensures
        run_from(entries, tr, fails, max, c).outcome is TraceEnded,
        run_from(entries, tr, fails, max, c).attempts == tr.len(),
        run_from(entries, tr, fails, max, c).ctx == c,
    decreases tr.len(),
{
    if tr.len() > 0 {
        assert(tr[0] is Failed);
        assert(forall|k: int| 0 <= k < tr.skip(1).len() ==> tr.skip(1)[k] == tr[k + 1]);
        lemma_retry_below_budget(entries, tr.skip(1), fails + 1, max, c);
    }
}

} // verus!
