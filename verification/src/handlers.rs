//! The built-in command handlers. Each handler is a pure decision over
//! the message, the resolved channel facts, and the session context: it
//! reports an outcome, may mutate the context, and returns the messages
//! to send, which the caller delivers.

use vstd::prelude::*;

use crate::context::{find_user, set_entry, Context, ContextView};
use crate::error::BotError;
use crate::gateway::{
    member_display, sends_view, Member, MemberView, MentionView, Message, MessageView,
    SendMessage, SendView, ServerInfo, ServerInfoView,
};
use crate::message_handler::{Outcome, OutcomeView};
use crate::models::User;
use crate::session::get_last_seen_time;
use crate::text::{
    dec_rep, pad_right, pad_right_spaces, tokenize, tokens, u64_to_string,
};
use crate::time::{format_time, format_time_spec};

verus! {

/// What a handler invocation produced: its outcome, the messages it
/// asks the caller to send, and the context it leaves behind.
#[verifier::ext_equal]
pub struct HandlerResult {
    pub outcome: OutcomeView,
    pub sends: Seq<SendView>,
    pub ctx: ContextView,
}

/// The help text the `help` command replies with.
pub const HELP_TEXT: &'static str = "Commands:\n  set-prefix <new-prefix>  set this server's command prefix\n  last-seen <mentions...>  when each mentioned user was last seen\n  last-seen-all            last-seen times for every member of this server\n  help                     this text\n";

/// What `set-prefix` does: with fewer than two tokens it fails with a
/// usage error; outside a server-bound channel it fails; otherwise it
/// stores the second token as the server's prefix and confirms.
pub open spec fn set_prefix_spec(m: MessageView, c: ContextView) -> HandlerResult {
    let parts = tokens(m.content);
    if parts.len() < 2 {
        HandlerResult {
            outcome: OutcomeView::Failed(
                seq!["Not enough Arguments! Usage: `set-prefix [NEW-PREFIX]`"@],
            ),
            sends: Seq::empty(),
            ctx: c,
        }
    } else {
        match m.server_id {
            Some(sid) => HandlerResult {
                outcome: OutcomeView::Handled,
                sends: seq![
                    SendView {
                        channel_id: m.channel_id,
                        text: "Set prefix to `"@ + parts[1] + "`!"@,
                    },
                ],
                ctx: ContextView { server_prefixes: set_entry(c.server_prefixes, sid, parts[1]), ..c },
            },
            None => HandlerResult {
                outcome: OutcomeView::Failed(seq!["This command can only be used on a server."@]),
                sends: Seq::empty(),
                ctx: c,
            },
        }
    }
}

/// Sets a new command prefix for the message's server.
///
/// The message is `[PREFIX]set-prefix [NEW-PREFIX]`, where the new
/// prefix may not contain whitespace; everything after it is ignored.
pub fn set_prefix(msg: &Message, ctx: &mut Context) -> (r: (Outcome, Vec<SendMessage>))
    requires
        old(ctx).wf(),
    ensures
        final(ctx).wf(),
        r.0@ == set_prefix_spec(msg@, old(ctx)@).outcome,
        sends_view(r.1@) == set_prefix_spec(msg@, old(ctx)@).sends,
        final(ctx)@ == set_prefix_spec(msg@, old(ctx)@).ctx,
{
    let parts = tokenize(msg.content.as_str());
    proof {
        assert(sends_view(Seq::<SendMessage>::empty()) =~= Seq::<SendView>::empty());
    }
    if parts.len() < 2 {
        let e = BotError::new(
            String::from_str("Not enough Arguments! Usage: `set-prefix [NEW-PREFIX]`"),
        );
        return (Outcome::Failed(e), Vec::new());
    }
    match msg.server_id {
        Some(sid) => {
            proof {
                crate::text::lemma_tokens_valid(msg.content@, 0);
                assert(parts@.map_values(|t: String| t@)[1] == parts@[1]@);
            }
            let new_prefix = parts[1].clone();
            ctx.server_prefixes.set(sid, new_prefix);
            let mut reply = String::from_str("Set prefix to `");
            reply.append(parts[1].as_str());
            reply.append("`!");
            let send = SendMessage { channel_id: msg.channel_id, text: reply };
            let mut sends: Vec<SendMessage> = Vec::new();
            sends.push(send);
            proof {
                assert(ctx@ =~= set_prefix_spec(msg@, old(ctx)@).ctx);
                assert(sends_view(sends@) =~= set_prefix_spec(msg@, old(ctx)@).sends);
            }
            (Outcome::Handled, sends)
        },
        None => {
            let e = BotError::new(String::from_str("This command can only be used on a server."));
            (Outcome::Failed(e), Vec::new())
        },
    }
}

/// The last-seen report for a user: the stored time rendered, or
/// `never` when the user was never seen (or has no timestamp).
pub open spec fn seen_text(users: Seq<User>, uid: u64) -> Seq<char> {
    match find_user(users, uid as i64) {
        Some(u) => match u.last_seen {
            Some(t) => format_time_spec(t),
            None => "never"@,
        },
        None => "never"@,
    }
}

/// How a mentioned user is named in the report: the resolved member's
/// display name, or `UID ` and the numeric id.
pub open spec fn mention_name(men: MentionView) -> Seq<char> {
    match men.member {
        Some(mem) => member_display(mem),
        None => "UID "@ + dec_rep(men.user_id as int),
    }
}

/// One mentioned user's line of the `last-seen` report.
pub open spec fn mention_line(men: MentionView, users: Seq<User>) -> Seq<char> {
    mention_name(men) + " last seen: "@ + seen_text(users, men.user_id)
}

/// The whole `last-seen` report: one entry per mention, concatenated.
pub open spec fn mention_lines(ms: Seq<MentionView>, users: Seq<User>) -> Seq<char>
    decreases ms.len(),
{
    if ms.len() == 0 {
        Seq::empty()
    } else {
        mention_line(ms[0], users) + mention_lines(ms.skip(1), users)
    }
}

/// Extending the mentions by one extends the report by that line.
pub proof fn lemma_mention_lines_snoc(ms: Seq<MentionView>, men: MentionView, users: Seq<User>)
    ensures
        mention_lines(ms.push(men), users) == mention_lines(ms, users) + mention_line(men, users),
    decreases ms.len(),
{
    if ms.len() == 0 {
        assert(ms.push(men).skip(1) =~= ms);
        assert(mention_lines(ms.push(men), users) =~= mention_lines(ms, users) + mention_line(
            men,
            users,
        ));
    } else {
        assert(ms.push(men).skip(1) =~= ms.skip(1).push(men));
        lemma_mention_lines_snoc(ms.skip(1), men, users);
        assert(mention_lines(ms.push(men), users) =~= mention_lines(ms, users) + mention_line(
            men,
            users,
        ));
    }
}

/// What `last-seen` does: builds one report line per mention and sends
/// the report, unless no mention produced any text.
pub open spec fn last_seen_spec(m: MessageView, c: ContextView) -> HandlerResult {
    let text = mention_lines(m.mentions, c.users);
    HandlerResult {
        outcome: OutcomeView::Handled,
        sends: if text.len() > 0 {
            seq![SendView { channel_id: m.channel_id, text }]
        } else {
            Seq::empty()
        },
        ctx: c,
    }
}

/// Reports when each mentioned user was last seen.
///
/// The message is `[PREFIX]last-seen [MENTION..]`; text outside the
/// mentions is ignored.
pub fn last_seen(msg: &Message, ctx: &mut Context) -> (r: (Outcome, Vec<SendMessage>))
    requires
        old(ctx).wf(),
    ensures
        final(ctx).wf(),
        r.0@ == last_seen_spec(msg@, old(ctx)@).outcome,
        sends_view(r.1@) == last_seen_spec(msg@, old(ctx)@).sends,
        final(ctx)@ == last_seen_spec(msg@, old(ctx)@).ctx,
{
    let mut message = String::new();
    let n = msg.mentions.len();
    let mut i: usize = 0;
    proof {
        assert(msg@.mentions.subrange(0, 0) =~= Seq::<MentionView>::empty());
    }
    while i < n
        invariant
            i <= n,
            n == msg.mentions@.len(),
            ctx.wf(),
            ctx == old(ctx),
            message@ =~= mention_lines(msg@.mentions.subrange(0, i as int), ctx@.users),
        decreases n - i,
    {
        let men = &msg.mentions[i];
        proof {
            assert(msg@.mentions[i as int] == msg.mentions@[i as int]@);
        }
        let user_ref: String = match &men.member {
            Some(mem) => mem.display_name().to_owned(),
            None => {
                let mut s = String::from_str("UID ");
                let id_text = u64_to_string(men.user_id);
                s.append(id_text.as_str());
                s
            },
        };
        let time = get_last_seen_time(ctx, men.user_id);
        let time_ref: String = match time {
            Ok(Some(t)) => {
                proof {
                    crate::context::lemma_find_is_stored(ctx@.users, men.user_id as i64);
                }
                format_time(t)
            },
            Ok(None) => String::from_str("never"),
            Err(_) => String::from_str("never"),
        };
        message.append(user_ref.as_str());
        message.append(" last seen: ");
        message.append(time_ref.as_str());
        proof {
            lemma_mention_lines_snoc(
                msg@.mentions.subrange(0, i as int),
                msg@.mentions[i as int],
                ctx@.users,
            );
            assert(msg@.mentions.subrange(0, i as int).push(msg@.mentions[i as int])
                =~= msg@.mentions.subrange(0, i as int + 1));
            assert(message@ =~= mention_lines(
                msg@.mentions.subrange(0, i as int + 1),
                ctx@.users,
            ));
        }
        i = i + 1;
    }
    proof {
        assert(msg@.mentions.subrange(0, n as int) =~= msg@.mentions);
        assert(sends_view(Seq::<SendMessage>::empty()) =~= Seq::<SendView>::empty());
    }
    let mut sends: Vec<SendMessage> = Vec::new();
    if message.as_str().unicode_len() > 0 {
        let send = SendMessage { channel_id: msg.channel_id, text: message };
        sends.push(send);
        proof {
            assert(sends_view(sends@) =~= last_seen_spec(msg@, old(ctx)@).sends);
        }
    }
    (Outcome::Handled, sends)
}

/// The first server with the given id in the snapshot, if any.
pub open spec fn find_server(servers: Seq<ServerInfoView>, sid: u64) -> Option<ServerInfoView>
    decreases servers.len(),
{
    if servers.len() == 0 {
        None
    } else if servers[0].id == sid {
        Some(servers[0])
    } else {
        find_server(servers.skip(1), sid)
    }
}

/// One member's line of the `last-seen-all` table: the display name
/// padded to twenty characters, a tab, the last-seen report, a newline.
pub open spec fn member_line(mem: MemberView, users: Seq<User>) -> Seq<char> {
    pad_right(member_display(mem), ' ', 20) + "\t"@ + seen_text(users, mem.user_id) + "\n"@
}

/// The body of the `last-seen-all` table: one line per member.
pub open spec fn member_lines(ms: Seq<MemberView>, users: Seq<User>) -> Seq<char>
    decreases ms.len(),
{
    if ms.len() == 0 {
        Seq::empty()
    } else {
        member_line(ms[0], users) + member_lines(ms.skip(1), users)
    }
}

/// Extending the members by one extends the table by that line.
pub proof fn lemma_member_lines_snoc(ms: Seq<MemberView>, mem: MemberView, users: Seq<User>)
    ensures
        member_lines(ms.push(mem), users) == member_lines(ms, users) + member_line(mem, users),
    decreases ms.len(),
{
    if ms.len() == 0 {
        assert(ms.push(mem).skip(1) =~= ms);
        assert(member_lines(ms.push(mem), users) =~= member_lines(ms, users) + member_line(
            mem,
            users,
        ));
    } else {
        assert(ms.push(mem).skip(1) =~= ms.skip(1).push(mem));
        lemma_member_lines_snoc(ms.skip(1), mem, users);
        assert(member_lines(ms.push(mem), users) =~= member_lines(ms, users) + member_line(
            mem,
            users,
        ));
    }
}

/// What `last-seen-all` does: fails outside a server-bound channel or
/// when the snapshot does not know the server; otherwise builds a table
/// over the server's members and sends it, unless the server has none.
pub open spec fn last_seen_all_spec(m: MessageView, c: ContextView) -> HandlerResult {
    let failed = HandlerResult {
        outcome: OutcomeView::Failed(seq!["Can only be used on servers!"@]),
        sends: Seq::empty(),
        ctx: c,
    };
    match m.server_id {
        None => failed,
        Some(sid) => match c.state {
            None => failed,
            Some(servers) => match find_server(servers, sid) {
                None => failed,
                Some(srv) => if srv.members.len() > 0 {
                    HandlerResult {
                        outcome: OutcomeView::Handled,
                        sends: seq![
                            SendView {
                                channel_id: m.channel_id,
                                text: "```\n"@ + member_lines(srv.members, c.users) + "\n```"@,
                            },
                        ],
                        ctx: c,
                    }
                } else {
                    HandlerResult {
                        outcome: OutcomeView::Handled,
                        sends: Seq::empty(),
                        ctx: c,
                    }
                },
            },
        },
    }
}

/// Reports the last-seen times of every member of the message's server.
///
/// The message is `[PREFIX]last-seen-all`; trailing text is ignored.
pub fn last_seen_all(msg: &Message, ctx: &mut Context) -> (r: (Outcome, Vec<SendMessage>))
    requires
        old(ctx).wf(),
    ensures
        final(ctx).wf(),
        r.0@ == last_seen_all_spec(msg@, old(ctx)@).outcome,
        sends_view(r.1@) == last_seen_all_spec(msg@, old(ctx)@).sends,
        final(ctx)@ == last_seen_all_spec(msg@, old(ctx)@).ctx,
{
    proof {
        assert(sends_view(Seq::<SendMessage>::empty()) =~= Seq::<SendView>::empty());
    }
    let sid = match msg.server_id {
        Some(sid) => sid,
        None => {
            let e = BotError::new(String::from_str("Can only be used on servers!"));
            return (Outcome::Failed(e), Vec::new());
        },
    };
    let snapshot = match &ctx.state {
        Some(s) => s,
        None => {
            let e = BotError::new(String::from_str("Can only be used on servers!"));
            return (Outcome::Failed(e), Vec::new());
        },
    };
    let ghost servers_v = ctx@.state->Some_0;
    let n = snapshot.servers.len();
    let mut i: usize = 0;
    proof {
        assert(servers_v.skip(0) =~= servers_v);
        assert(servers_v == snapshot.servers@.map_values(|s: ServerInfo| s@));
    }
    while i < n && snapshot.servers[i].id != sid
        invariant
            i <= n,
            n == snapshot.servers@.len(),
            servers_v == snapshot.servers@.map_values(|s: ServerInfo| s@),
            find_server(servers_v, sid) == find_server(servers_v.skip(i as int), sid),
        decreases n - i,
    {
        proof {
            assert(servers_v.skip(i as int)[0] == servers_v[i as int]);
            assert(servers_v[i as int] == snapshot.servers@[i as int]@);
            assert(servers_v.skip(i as int).skip(1) =~= servers_v.skip(i as int + 1));
        }
        i = i + 1;
    }
    if i >= n {
        proof {
            assert(servers_v.skip(n as int) =~= Seq::<ServerInfoView>::empty());
        }
        let e = BotError::new(String::from_str("Can only be used on servers!"));
        return (Outcome::Failed(e), Vec::new());
    }
    let srv = &snapshot.servers[i];
    proof {
        assert(servers_v.skip(i as int)[0] == servers_v[i as int]);
        assert(servers_v[i as int] == snapshot.servers@[i as int]@);
        assert(find_server(servers_v, sid) == Some(srv@));
    }
    let mut body = String::new();
    let mn = srv.members.len();
    let mut j: usize = 0;
    proof {
        assert(srv@.members.subrange(0, 0) =~= Seq::<MemberView>::empty());
    }
    while j < mn
        invariant
            j <= mn,
            mn == srv.members@.len(),
            ctx.wf(),
            ctx == old(ctx),
            body@ =~= member_lines(srv@.members.subrange(0, j as int), ctx@.users),
        decreases mn - j,
    {
        let mem = &srv.members[j];
        proof {
            assert(srv@.members[j as int] == srv.members@[j as int]@);
        }
        let name = pad_right_spaces(mem.display_name(), 20);
        let time = get_last_seen_time(ctx, mem.user_id);
        let time_ref: String = match time {
            Ok(Some(t)) => {
                proof {
                    crate::context::lemma_find_is_stored(ctx@.users, mem.user_id as i64);
                }
                format_time(t)
            },
            Ok(None) => String::from_str("never"),
            Err(_) => String::from_str("never"),
        };
        body.append(name.as_str());
        body.append("\t");
        body.append(time_ref.as_str());
        body.append("\n");
        proof {
            lemma_member_lines_snoc(
                srv@.members.subrange(0, j as int),
                srv@.members[j as int],
                ctx@.users,
            );
            assert(srv@.members.subrange(0, j as int).push(srv@.members[j as int])
                =~= srv@.members.subrange(0, j as int + 1));
            assert(body@ =~= member_lines(srv@.members.subrange(0, j as int + 1), ctx@.users));
        }
        j = j + 1;
    }
    proof {
        assert(srv@.members.subrange(0, mn as int) =~= srv@.members);
    }
    let mut sends: Vec<SendMessage> = Vec::new();
    if mn > 0 {
        let mut text = String::from_str("```\n");
        text.append(body.as_str());
        text.append("\n```");
        let send = SendMessage { channel_id: msg.channel_id, text };
        sends.push(send);
        proof {
            assert(sends_view(sends@) =~= last_seen_all_spec(msg@, old(ctx)@).sends);
        }
    }
    (Outcome::Handled, sends)
}

/// What `help` does: sends the static help text and claims the command.
pub open spec fn help_spec(m: MessageView, c: ContextView) -> HandlerResult {
    HandlerResult {
        outcome: OutcomeView::Handled,
        sends: seq![SendView { channel_id: m.channel_id, text: HELP_TEXT@ }],
        ctx: c,
    }
}

/// Replies with the static help text.
///
/// The message is `[PREFIX]help`; trailing text is ignored.
pub fn help(msg: &Message, ctx: &mut Context) -> (r: (Outcome, Vec<SendMessage>))
    requires
        old(ctx).wf(),
    ensures
        final(ctx).wf(),
        r.0@ == help_spec(msg@, old(ctx)@).outcome,
        sends_view(r.1@) == help_spec(msg@, old(ctx)@).sends,
        final(ctx)@ == help_spec(msg@, old(ctx)@).ctx,
{
    let send = SendMessage { channel_id: msg.channel_id, text: HELP_TEXT.to_owned() };
    let mut sends: Vec<SendMessage> = Vec::new();
    sends.push(send);
    proof {
        assert(sends_view(sends@) =~= help_spec(msg@, old(ctx)@).sends);
    }
    (Outcome::Handled, sends)
}

/// One line of the prefix dump: the server id, a tab, and the prefix in
/// backquotes; entries follow each other without a separator.
pub open spec fn prefix_lines(entries: Seq<(u64, Seq<char>)>) -> Seq<char>
    decreases entries.len(),
{
    if entries.len() == 0 {
        Seq::empty()
    } else {
        dec_rep(entries[0].0 as int) + "\t`"@ + entries[0].1 + "`"@ + prefix_lines(
            entries.skip(1),
        )
    }
}

/// Extending the table by one entry extends the dump by that line.
pub proof fn lemma_prefix_lines_snoc(entries: Seq<(u64, Seq<char>)>, e: (u64, Seq<char>))
    ensures
        prefix_lines(entries.push(e)) == prefix_lines(entries) + (dec_rep(e.0 as int) + "\t`"@
            + e.1 + "`"@),
    decreases entries.len(),
{
    if entries.len() == 0 {
        assert(entries.push(e).skip(1) =~= entries);
        assert(prefix_lines(entries.push(e)) =~= prefix_lines(entries) + (dec_rep(e.0 as int)
            + "\t`"@ + e.1 + "`"@));
    } else {
        assert(entries.push(e).skip(1) =~= entries.skip(1).push(e));
        lemma_prefix_lines_snoc(entries.skip(1), e);
        assert(prefix_lines(entries.push(e)) =~= prefix_lines(entries) + (dec_rep(e.0 as int)
            + "\t`"@ + e.1 + "`"@));
    }
}

/// What `debug-print-prefixes` does: sends a header and one line per
/// prefix override, in insertion order.
pub open spec fn debug_print_prefixes_spec(m: MessageView, c: ContextView) -> HandlerResult {
    HandlerResult {
        outcome: OutcomeView::Handled,
        sends: seq![
            SendView {
                channel_id: m.channel_id,
                text: "Server ID\tPrefix\n\n"@ + prefix_lines(c.server_prefixes),
            },
        ],
        ctx: c,
    }
}

/// Dumps all prefix overrides back to the channel; a debugging aid.
///
/// The message is `[PREFIX]debug-print-prefixes`; trailing text is
/// ignored.
pub fn debug_print_prefixes(msg: &Message, ctx: &mut Context) -> (r: (Outcome, Vec<SendMessage>))
    requires
        old(ctx).wf(),
    ensures
        final(ctx).wf(),
        r.0@ == debug_print_prefixes_spec(msg@, old(ctx)@).outcome,
        sends_view(r.1@) == debug_print_prefixes_spec(msg@, old(ctx)@).sends,
        final(ctx)@ == debug_print_prefixes_spec(msg@, old(ctx)@).ctx,
{
    let mut m = String::from_str("Server ID\tPrefix\n\n");
    let n = ctx.server_prefixes.entry_count();
    let mut i: usize = 0;
    proof {
        assert(ctx@.server_prefixes.subrange(0, 0) =~= Seq::<(u64, Seq<char>)>::empty());
        assert(m@ =~= "Server ID\tPrefix\n\n"@ + prefix_lines(
            ctx@.server_prefixes.subrange(0, 0),
        ));
    }
    while i < n
        invariant
            i <= n,
            n == ctx@.server_prefixes.len(),
            ctx.wf(),
            ctx == old(ctx),
            m@ =~= "Server ID\tPrefix\n\n"@ + prefix_lines(
                ctx@.server_prefixes.subrange(0, i as int),
            ),
        decreases n - i,
    {
        let e = ctx.server_prefixes.entry_at(i);
        let id_text = u64_to_string(e.0);
        m.append(id_text.as_str());
        m.append("\t`");
        m.append(e.1.as_str());
        m.append("`");
        proof {
            lemma_prefix_lines_snoc(
                ctx@.server_prefixes.subrange(0, i as int),
                ctx@.server_prefixes[i as int],
            );
            assert(ctx@.server_prefixes.subrange(0, i as int).push(
                ctx@.server_prefixes[i as int],
            ) =~= ctx@.server_prefixes.subrange(0, i as int + 1));
            assert(m@ =~= "Server ID\tPrefix\n\n"@ + prefix_lines(
                ctx@.server_prefixes.subrange(0, i as int + 1),
            ));
        }
        i = i + 1;
    }
    proof {
        assert(ctx@.server_prefixes.subrange(0, n as int) =~= ctx@.server_prefixes);
    }
    let send = SendMessage { channel_id: msg.channel_id, text: m };
    let mut sends: Vec<SendMessage> = Vec::new();
    sends.push(send);
    proof {
        assert(sends_view(sends@) =~= debug_print_prefixes_spec(msg@, old(ctx)@).sends);
    }
    (Outcome::Handled, sends)
}

/// What `debug-error-test` does: fails unconditionally.
pub open spec fn debug_test_error_spec(m: MessageView, c: ContextView) -> HandlerResult {
    HandlerResult {
        outcome: OutcomeView::Failed(seq!["Error-Test!"@]),
        sends: Seq::empty(),
        ctx: c,
    }
}

/// Fails unconditionally, to exercise the error-reporting path; a
/// debugging aid.
///
/// The message is `[PREFIX]debug-error-test`; trailing text is ignored.
pub fn debug_test_error(msg: &Message, ctx: &mut Context) -> (r: (Outcome, Vec<SendMessage>))
    requires
        old(ctx).wf(),
    ensures
        final(ctx).wf(),
        r.0@ == debug_test_error_spec(msg@, old(ctx)@).outcome,
        sends_view(r.1@) == debug_test_error_spec(msg@, old(ctx)@).sends,
        final(ctx)@ == debug_test_error_spec(msg@, old(ctx)@).ctx,
{
    proof {
        assert(sends_view(Seq::<SendMessage>::empty()) =~= Seq::<SendView>::empty());
    }
    let e = BotError::new(String::from_str("Error-Test!"));
    (Outcome::Failed(e), Vec::new())
}

} // verus!
