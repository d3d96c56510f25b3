//! The handler registry: keyword-tagged handlers, kept in registration
//! order, and the fallthrough dispatch over them.

use vstd::prelude::*;

use crate::context::{Context, ContextView};
use crate::error::{render_chain, render_error, BotError};
use crate::gateway::{sends_view, Message, MessageView, SendMessage, SendView};
use crate::handlers;
use crate::handlers::HandlerResult;
use crate::text::{tokenize, tokens};

verus! {

/// The three-way result a handler reports to the dispatcher.
pub enum Outcome {
    /// The handler claimed the command; no later handler runs.
    Handled,
    /// The handler declined; dispatch falls through to the next one.
    NotHandled,
    /// The handler failed; the error is reported to the channel and
    /// dispatch falls through to the next one.
    Failed(BotError),
}

#[verifier::ext_equal]
pub enum OutcomeView {
    Handled,
    NotHandled,
    Failed(Seq<Seq<char>>),
}

impl View for Outcome {
    type V = OutcomeView;

    open spec fn view(&self) -> OutcomeView {
        match self {
            Outcome::Handled => OutcomeView::Handled,
            Outcome::NotHandled => OutcomeView::NotHandled,
            Outcome::Failed(e) => OutcomeView::Failed(e.chain()),
        }
    }
}

impl Clone for Outcome {
    fn clone(&self) -> (r: Self)
        ensures
            r@ == self@,
    {
        match self {
            Outcome::Handled => Outcome::Handled,
            Outcome::NotHandled => Outcome::NotHandled,
            Outcome::Failed(e) => Outcome::Failed(e.clone()),
        }
    }
}

/// A registered handler. The built-in commands each have a tag; `Fixed`
/// is a stub that reports a fixed outcome and does nothing else, for
/// layering extra handlers over a keyword.
pub enum Handler {
    SetPrefix,
    LastSeen,
    LastSeenAll,
    Help,
    DebugPrintPrefixes,
    DebugTestError,
    Fixed(Outcome),
}

#[verifier::ext_equal]
pub enum HandlerView {
    SetPrefix,
    LastSeen,
    LastSeenAll,
    Help,
    DebugPrintPrefixes,
    DebugTestError,
    Fixed(OutcomeView),
}

impl View for Handler {
    type V = HandlerView;

    open spec fn view(&self) -> HandlerView {
        match self {
            Handler::SetPrefix => HandlerView::SetPrefix,
            Handler::LastSeen => HandlerView::LastSeen,
            Handler::LastSeenAll => HandlerView::LastSeenAll,
            Handler::Help => HandlerView::Help,
            Handler::DebugPrintPrefixes => HandlerView::DebugPrintPrefixes,
            Handler::DebugTestError => HandlerView::DebugTestError,
            Handler::Fixed(o) => HandlerView::Fixed(o@),
        }
    }
}

/// The store of all registered handlers: keyword-handler pairs in
/// registration order. Several handlers may share a keyword.
pub struct MessageHandlerStore {
    handlers: Vec<(String, Handler)>,
}

impl View for MessageHandlerStore {
    type V = Seq<(Seq<char>, HandlerView)>;

    closed spec fn view(&self) -> Seq<(Seq<char>, HandlerView)> {
        self.handlers@.map_values(|p: (String, Handler)| (p.0@, p.1@))
    }
}

/// The handlers registered for a keyword, in registration order.
pub open spec fn handlers_for(entries: Seq<(Seq<char>, HandlerView)>, keyword: Seq<char>) -> Seq<
    HandlerView,
>
    decreases entries.len(),
{
    if entries.len() == 0 {
        seq![]
    } else if entries[0].0 == keyword {
        seq![entries[0].1] + handlers_for(entries.skip(1), keyword)
    } else {
        handlers_for(entries.skip(1), keyword)
    }
}

/// Registering a handler extends the handlers of its keyword by that
/// handler, and leaves every other keyword's handlers unchanged.
pub proof fn lemma_handlers_for_push(
    entries: Seq<(Seq<char>, HandlerView)>,
    pair: (Seq<char>, HandlerView),
    keyword: Seq<char>,
)
    ensures
        handlers_for(entries.push(pair), keyword) == if pair.0 == keyword {
            handlers_for(entries, keyword).push(pair.1)
        } else {
            handlers_for(entries, keyword)
        },
    decreases entries.len(),
{
    if entries.len() == 0 {
        assert(entries.push(pair).skip(1) =~= entries);
        if pair.0 == keyword {
            assert(handlers_for(entries.push(pair), keyword) =~= handlers_for(
                entries,
                keyword,
            ).push(pair.1));
        } else {
            assert(handlers_for(entries.push(pair), keyword) =~= handlers_for(entries, keyword));
        }
    } else {
        assert(entries.push(pair).skip(1) =~= entries.skip(1).push(pair));
        lemma_handlers_for_push(entries.skip(1), pair, keyword);
        if pair.0 == keyword {
            assert(handlers_for(entries.push(pair), keyword) =~= handlers_for(
                entries,
                keyword,
            ).push(pair.1));
        } else {
            assert(handlers_for(entries.push(pair), keyword) =~= handlers_for(entries, keyword));
        }
    }
}

impl MessageHandlerStore {
    /// An empty store: no keyword has handlers.
    pub fn new() -> (s: Self)
        ensures
            s@ == Seq::<(Seq<char>, HandlerView)>::empty(),
    {
        let s = MessageHandlerStore { handlers: Vec::new() };
        proof {
            assert(s@ =~= Seq::<(Seq<char>, HandlerView)>::empty());
        }
        s
    }

    /// Appends a handler to the keyword's list, preserving registration
    /// order; several handlers may share a keyword.
    pub fn register_handler(&mut self, keyword: &str, handler: Handler)
        ensures
            final(self)@ == old(self)@.push((keyword@, handler@)),
    {
        let ghost pre = self@;
        let k = keyword.to_owned();
        proof {
            assert(self.handlers@.push((k, handler)).map_values(
                |p: (String, Handler)| (p.0@, p.1@),
            ) =~= pre.push((keyword@, handler@)));
        }
        self.handlers.push((k, handler));
    }

    /// The total number of registrations, over all keywords.
    pub fn get_handler_count(&self) -> (n: usize)
        ensures
            n == self@.len(),
    {
        self.handlers.len()
    }

    /// Splits the message on whitespace, takes the first token as the
    /// keyword, and invokes the keyword's handlers strictly in
    /// registration order: `Handled` stops the chain, `NotHandled`
    /// falls through, and a failure is rendered and queued as a reply
    /// to the originating channel, after which dispatch continues. A
    /// message without tokens, or with an unregistered keyword, is a
    /// no-op. A handler's failure never escapes dispatch.
    pub fn call_handler(&self, msg: &Message, ctx: &mut Context) -> (sends: Vec<SendMessage>)
        requires
            old(ctx).wf(),
        ensures
            final(ctx).wf(),
            sends_view(sends@) == dispatch_spec(self@, msg@, old(ctx)@).sends,
            final(ctx)@ == dispatch_spec(self@, msg@, old(ctx)@).ctx,
            (tokens(msg@.content).len() == 0 || handlers_for(
                self@,
                tokens(msg@.content)[0],
            ).len() == 0) ==> sends@.len() == 0 && final(ctx)@ == old(ctx)@,
    {
        let ghost c0 = ctx@;
        let ghost full = dispatch_spec(self@, msg@, c0);
        let parts = tokenize(msg.content.as_str());
        let mut sends: Vec<SendMessage> = Vec::new();
        proof {
            assert(sends_view(sends@) =~= Seq::<SendView>::empty());
        }
        if parts.len() == 0 {
            return sends;
        }
        let keyword = &parts[0];
        proof {
            assert(parts@.map_values(|t: String| t@)[0] == parts@[0]@);
            assert(keyword@ == tokens(msg@.content)[0]);
            assert(self@.skip(0) =~= self@);
        }
        let ghost kw = keyword@;
        let n = self.handlers.len();
        let mut i: usize = 0;
        let mut stopped = false;
        while i < n && !stopped
            invariant
                i <= n,
                n == self.handlers@.len(),
                ctx.wf(),
                kw == keyword@,
                kw == tokens(msg@.content)[0],
                tokens(msg@.content).len() > 0,
                full == dispatch_spec(self@, msg@, c0),
                !stopped ==> {
                    let rest = run_handlers(handlers_for(self@.skip(i as int), kw), msg@, ctx@);
                    full.sends == sends_view(sends@) + rest.sends && full.ctx == rest.ctx
                },
                stopped ==> full.sends == sends_view(sends@) && full.ctx == ctx@,
            decreases n - i,
        {
            let ghost entries_i = self@.skip(i as int);
            proof {
                let ghost pair = self.handlers@[i as int];
                assert(entries_i[0] == self@[i as int]);
                assert(self@[i as int] == (pair.0@, pair.1@));
                assert(entries_i.skip(1) =~= self@.skip(i as int + 1));
            }
            if self.handlers[i].0.eq(keyword) {
                proof {
                    assert(handlers_for(entries_i, kw) == seq![entries_i[0].1] + handlers_for(
                        entries_i.skip(1),
                        kw,
                    ));
                    assert(handlers_for(entries_i, kw)[0] == entries_i[0].1);
                    assert(handlers_for(entries_i, kw).skip(1) =~= handlers_for(
                        entries_i.skip(1),
                        kw,
                    ));
                }
                let (outcome, mut new_sends) = invoke(&self.handlers[i].1, msg, ctx);
                proof {
                    assert(sends_view(sends@ + new_sends@) =~= sends_view(sends@) + sends_view(
                        new_sends@,
                    ));
                }
                sends.append(&mut new_sends);
                match outcome {
                    Outcome::Handled => {
                        stopped = true;
                    },
                    Outcome::NotHandled => {
                    },
                    Outcome::Failed(e) => {
                        let text = render_error(&e);
                        let reply = SendMessage { channel_id: msg.channel_id, text };
                        proof {
                            assert(sends_view(sends@.push(reply)) =~= sends_view(sends@)
                                + seq![reply@]);
                        }
                        sends.push(reply);
                    },
                }
            } else {
                proof {
                    assert(handlers_for(entries_i, kw) == handlers_for(entries_i.skip(1), kw));
                }
            }
            i = i + 1;
        }
        proof {
            if !stopped {
                assert(self@.skip(n as int) =~= Seq::<(Seq<char>, HandlerView)>::empty());
                assert(handlers_for(self@.skip(n as int), kw) =~= Seq::<HandlerView>::empty());
                assert(run_handlers(Seq::<HandlerView>::empty(), msg@, ctx@).sends
                    =~= Seq::<SendView>::empty());
            }
            assert(full.sends =~= sends_view(sends@));
            if handlers_for(self@, kw).len() == 0 {
                assert(run_handlers(handlers_for(self@, kw), msg@, c0).sends =~= Seq::<
                    SendView,
                >::empty());
            }
        }
        sends
    }
}

/// What one handler invocation does, by its tag.
#[verifier::opaque]
pub open spec fn invoke_spec(h: HandlerView, m: MessageView, c: ContextView) -> HandlerResult {
    match h {
        HandlerView::SetPrefix => handlers::set_prefix_spec(m, c),
        HandlerView::LastSeen => handlers::last_seen_spec(m, c),
        HandlerView::LastSeenAll => handlers::last_seen_all_spec(m, c),
        HandlerView::Help => handlers::help_spec(m, c),
        HandlerView::DebugPrintPrefixes => handlers::debug_print_prefixes_spec(m, c),
        HandlerView::DebugTestError => handlers::debug_test_error_spec(m, c),
        HandlerView::Fixed(o) => HandlerResult { outcome: o, sends: Seq::empty(), ctx: c },
    }
}

/// Invokes one handler on the message and context.
pub fn invoke(h: &Handler, msg: &Message, ctx: &mut Context) -> (r: (Outcome, Vec<SendMessage>))
    requires
        old(ctx).wf(),
    ensures
        final(ctx).wf(),
        r.0@ == invoke_spec(h@, msg@, old(ctx)@).outcome,
        sends_view(r.1@) == invoke_spec(h@, msg@, old(ctx)@).sends,
        final(ctx)@ == invoke_spec(h@, msg@, old(ctx)@).ctx,
{
    proof {
        reveal(invoke_spec);
    }
    match h {
        Handler::SetPrefix => handlers::set_prefix(msg, ctx),
        Handler::LastSeen => handlers::last_seen(msg, ctx),
        Handler::LastSeenAll => handlers::last_seen_all(msg, ctx),
        Handler::Help => handlers::help(msg, ctx),
        Handler::DebugPrintPrefixes => handlers::debug_print_prefixes(msg, ctx),
        Handler::DebugTestError => handlers::debug_test_error(msg, ctx),
        Handler::Fixed(o) => {
            proof {
                assert(sends_view(Seq::<SendMessage>::empty()) =~= Seq::<SendView>::empty());
            }
            (o.clone(), Vec::new())
        },
    }
}

/// What dispatch leaves behind: the queued sends and the context.
#[verifier::ext_equal]
pub struct DispatchResult {
    pub sends: Seq<SendView>,
    pub ctx: ContextView,
}

/// Running a chain of handlers in order: the first `Handled` outcome
/// stops the chain; `NotHandled` falls through; a failure queues one
/// rendered error reply to the originating channel and falls through.
pub open spec fn run_handlers(hs: Seq<HandlerView>, m: MessageView, c: ContextView)
    -> DispatchResult
    decreases hs.len(),
{
    if hs.len() == 0 {
        DispatchResult { sends: Seq::empty(), ctx: c }
    } else {
        let r = invoke_spec(hs[0], m, c);
        match r.outcome {
            OutcomeView::Handled => DispatchResult { sends: r.sends, ctx: r.ctx },
            OutcomeView::NotHandled => {
                let rest = run_handlers(hs.skip(1), m, r.ctx);
                DispatchResult { sends: r.sends + rest.sends, ctx: rest.ctx }
            },
            OutcomeView::Failed(chain) => {
                let reply = SendView { channel_id: m.channel_id, text: render_chain(chain) };
                let rest = run_handlers(hs.skip(1), m, r.ctx);
                DispatchResult { sends: r.sends + seq![reply] + rest.sends, ctx: rest.ctx }
            },
        }
    }
}

/// The context after the first `j` handlers of a chain have each been
/// invoked and fallen through.
pub open spec fn ctx_at(hs: Seq<HandlerView>, m: MessageView, c: ContextView, j: int)
    -> ContextView
    decreases j,
{
    if j <= 0 {
        c
    } else {
        invoke_spec(hs[j - 1], m, ctx_at(hs, m, c, j - 1)).ctx
    }
}

proof fn lemma_ctx_at_shift(hs: Seq<HandlerView>, m: MessageView, c: ContextView, j: int)
    requires
        hs.len() > 0,
        0 <= j < hs.len(),
    ensures
        ctx_at(hs.skip(1), m, invoke_spec(hs[0], m, c).ctx, j) == ctx_at(hs, m, c, j + 1),
    decreases j,
{
    assert(ctx_at(hs, m, c, 0) == c);
    assert(ctx_at(hs.skip(1), m, invoke_spec(hs[0], m, c).ctx, 0) == invoke_spec(
        hs[0],
        m,
        c,
    ).ctx);
    if j > 0 {
        lemma_ctx_at_shift(hs, m, c, j - 1);
        assert(hs.skip(1)[j - 1] == hs[j]);
        assert(ctx_at(hs.skip(1), m, invoke_spec(hs[0], m, c).ctx, j) == invoke_spec(
            hs.skip(1)[j - 1],
            m,
            ctx_at(hs.skip(1), m, invoke_spec(hs[0], m, c).ctx, j - 1),
        ).ctx);
        assert(ctx_at(hs, m, c, j + 1) == invoke_spec(hs[j], m, ctx_at(hs, m, c, j)).ctx);
    }
}

/// Dispatch invokes a keyword's handlers strictly in registration
/// order and stops at the first one that reports `Handled`: when every
/// handler before position `i` falls through with `NotHandled` and the
/// handler at `i` claims the command, the handlers after `i` contribute
/// nothing, neither sends nor context changes.
pub proof fn lemma_dispatch_stops_at_first_handled(
    hs: Seq<HandlerView>,
    m: MessageView,
    c: ContextView,
    i: int,
)
    requires
        0 <= i < hs.len(),
        forall|j: int|
            0 <= j < i ==> invoke_spec(hs[j], m, #[trigger] ctx_at(hs, m, c, j)).outcome
                == OutcomeView::NotHandled,
        invoke_spec(hs[i], m, ctx_at(hs, m, c, i)).outcome == OutcomeView::Handled,
    ensures
        run_handlers(hs, m, c) == run_handlers(hs.take(i + 1), m, c),
    decreases i,
{
    let pre = hs.take(i + 1);
    assert(pre[0] == hs[0]);
    if i == 0 {
        assert(ctx_at(hs, m, c, 0) == c);
        assert(pre.len() == 1);
        assert(run_handlers(hs, m, c) =~= run_handlers(pre, m, c));
    } else {
        let r0 = invoke_spec(hs[0], m, c);
        assert(invoke_spec(hs[0], m, ctx_at(hs, m, c, 0)).outcome == OutcomeView::NotHandled);
        assert forall|j: int|
            0 <= j < i - 1 implies invoke_spec(
            hs.skip(1)[j],
            m,
            #[trigger] ctx_at(hs.skip(1), m, r0.ctx, j),
        ).outcome == OutcomeView::NotHandled by {
            lemma_ctx_at_shift(hs, m, c, j);
            assert(hs.skip(1)[j] == hs[j + 1]);
        }
        lemma_ctx_at_shift(hs, m, c, i - 1);
        assert(hs.skip(1)[i - 1] == hs[i]);
        lemma_dispatch_stops_at_first_handled(hs.skip(1), m, r0.ctx, i - 1);
        assert(hs.skip(1).take(i) =~= pre.skip(1));
        assert(run_handlers(hs, m, c) =~= run_handlers(pre, m, c));
    }
}

/// A handler that fails does not abort dispatch: the chain of one
/// failing handler queues exactly one reply, the rendered error sent
/// back to the originating channel, and dispatch leaves behind the
/// context that the handler left.
pub proof fn lemma_dispatch_reports_failure(
    h: HandlerView,
    m: MessageView,
    c: ContextView,
    chain: Seq<Seq<char>>,
)
    requires
        invoke_spec(h, m, c).outcome == OutcomeView::Failed(chain),
        invoke_spec(h, m, c).sends == Seq::<SendView>::empty(),
    ensures
        run_handlers(seq![h], m, c).sends == seq![
            SendView { channel_id: m.channel_id, text: render_chain(chain) },
        ],
        run_handlers(seq![h], m, c).ctx == invoke_spec(h, m, c).ctx,
{
    let hs = seq![h];
    assert(hs[0] == h);
    assert(hs.skip(1) =~= Seq::<HandlerView>::empty());
    assert(run_handlers(hs.skip(1), m, invoke_spec(h, m, c).ctx).sends == Seq::<
        SendView,
    >::empty());
    assert(run_handlers(hs, m, c).sends =~= seq![
        SendView { channel_id: m.channel_id, text: render_chain(chain) },
    ]);
}

/// What dispatch does: a message without tokens is a no-op; otherwise
/// the first token selects the handler chain, which runs in order.
pub open spec fn dispatch_spec(
    entries: Seq<(Seq<char>, HandlerView)>,
    m: MessageView,
    c: ContextView,
) -> DispatchResult {
    let parts = tokens(m.content);
    if parts.len() == 0 {
        DispatchResult { sends: Seq::empty(), ctx: c }
    } else {
        run_handlers(handlers_for(entries, parts[0]), m, c)
    }
}

} // verus!
