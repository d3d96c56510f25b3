use seenbot::context::Context;
use seenbot::error::BotError;
use seenbot::gateway::{Member, Mention, Message, ServerInfo, StateSnapshot};
use seenbot::handlers::HELP_TEXT;
use seenbot::message_handler::{Handler, MessageHandlerStore, Outcome};
use seenbot::session::{process_message, register_debug_handlers, register_handlers};

fn message(content: &str, server_id: Option<u64>) -> Message {
    Message {
        content: content.to_string(),
        channel_id: 42,
        author_id: 1,
        server_id,
        mentions: Vec::new(),
    }
}

#[test]
fn unregistered_keyword_is_a_silent_no_op() {
    let mut ctx = Context::new();
    let mut mhs = MessageHandlerStore::new();
    register_handlers(&mut mhs).unwrap();
    let sends = mhs.call_handler(&message("nope at all", Some(7)), &mut ctx);
    assert!(sends.is_empty());
    assert_eq!(ctx.users.user_count(), 0);
    assert_eq!(ctx.get_server_prefix(7), "!".to_string());
}

#[test]
fn empty_message_is_a_no_op() {
    let mut ctx = Context::new();
    let mut mhs = MessageHandlerStore::new();
    register_handlers(&mut mhs).unwrap();
    let sends = mhs.call_handler(&message("   ", Some(7)), &mut ctx);
    assert!(sends.is_empty());
}

#[test]
fn dispatch_stops_at_first_handled_handler() {
    let mut ctx = Context::new();
    let mut mhs = MessageHandlerStore::new();
    mhs.register_handler("probe", Handler::Fixed(Outcome::NotHandled));
    mhs.register_handler("probe", Handler::Fixed(Outcome::Handled));
    // if dispatch reached this handler, it would queue an error reply
    mhs.register_handler(
        "probe",
        Handler::Fixed(Outcome::Failed(BotError::new("never".to_string()))),
    );
    let sends = mhs.call_handler(&message("probe", None), &mut ctx);
    assert!(sends.is_empty());
}

#[test]
fn failed_handler_sends_one_error_reply_and_dispatch_succeeds() {
    let mut ctx = Context::new();
    let mut mhs = MessageHandlerStore::new();
    mhs.register_handler(
        "boom",
        Handler::Fixed(Outcome::Failed(BotError::new("x".to_string()))),
    );
    let sends = mhs.call_handler(&message("boom", None), &mut ctx);
    assert_eq!(sends.len(), 1);
    assert_eq!(sends[0].channel_id, 42);
    assert_eq!(sends[0].text, "Error: x".to_string());
}

#[test]
fn failed_handler_falls_through_to_later_handlers() {
    let mut ctx = Context::new();
    let mut mhs = MessageHandlerStore::new();
    mhs.register_handler(
        "boom",
        Handler::Fixed(Outcome::Failed(BotError::new("first".to_string()))),
    );
    mhs.register_handler(
        "boom",
        Handler::Fixed(Outcome::Failed(BotError::new("second".to_string()))),
    );
    let sends = mhs.call_handler(&message("boom", None), &mut ctx);
    assert_eq!(sends.len(), 2);
    assert_eq!(sends[0].text, "Error: first".to_string());
    assert_eq!(sends[1].text, "Error: second".to_string());
}

#[test]
fn bang_help_reaches_the_help_handler() {
    let mut ctx = Context::new();
    let mut mhs = MessageHandlerStore::new();
    register_handlers(&mut mhs).unwrap();
    let sends = process_message(&message("!help", Some(7)), &mhs, &mut ctx);
    assert_eq!(sends.len(), 1);
    assert_eq!(sends[0].channel_id, 42);
    assert_eq!(sends[0].text, HELP_TEXT.to_string());
}

#[test]
fn message_without_prefix_is_not_dispatched() {
    let mut ctx = Context::new();
    let mut mhs = MessageHandlerStore::new();
    register_handlers(&mut mhs).unwrap();
    let sends = process_message(&message("help", Some(7)), &mhs, &mut ctx);
    assert!(sends.is_empty());
}

#[test]
fn set_prefix_outside_server_fails_and_changes_nothing() {
    let mut ctx = Context::new();
    let mut mhs = MessageHandlerStore::new();
    register_handlers(&mut mhs).unwrap();
    let sends = process_message(&message("!set-prefix $", None), &mhs, &mut ctx);
    assert_eq!(sends.len(), 1);
    assert_eq!(
        sends[0].text,
        "Error: This command can only be used on a server.".to_string()
    );
    assert_eq!(ctx.get_server_prefix(7), "!".to_string());
    assert_eq!(ctx.server_prefixes.entry_count(), 0);
}

#[test]
fn set_prefix_with_too_few_tokens_fails_with_usage_error() {
    let mut ctx = Context::new();
    let mut mhs = MessageHandlerStore::new();
    register_handlers(&mut mhs).unwrap();
    let sends = process_message(&message("!set-prefix", Some(7)), &mhs, &mut ctx);
    assert_eq!(sends.len(), 1);
    assert_eq!(
        sends[0].text,
        "Error: Not enough Arguments! Usage: `set-prefix [NEW-PREFIX]`".to_string()
    );
    assert_eq!(ctx.server_prefixes.entry_count(), 0);
}

#[test]
fn set_prefix_stores_the_new_prefix_and_confirms() {
    let mut ctx = Context::new();
    let mut mhs = MessageHandlerStore::new();
    register_handlers(&mut mhs).unwrap();
    let sends = process_message(&message("!set-prefix $ trailing", Some(7)), &mhs, &mut ctx);
    assert_eq!(sends.len(), 1);
    assert_eq!(sends[0].text, "Set prefix to `$`!".to_string());
    assert_eq!(ctx.get_server_prefix(7), "$".to_string());
    // the new prefix is honoured from now on
    let sends = process_message(&message("$help", Some(7)), &mhs, &mut ctx);
    assert_eq!(sends.len(), 1);
    assert_eq!(sends[0].text, HELP_TEXT.to_string());
    // and the old one no longer is
    let sends = process_message(&message("!help", Some(7)), &mhs, &mut ctx);
    assert!(sends.is_empty());
}

#[test]
fn last_seen_reports_each_mention() {
    let mut ctx = Context::new();
    let mut mhs = MessageHandlerStore::new();
    register_handlers(&mut mhs).unwrap();
    ctx.user_seen(5, 1431648000).unwrap();
    let msg = Message {
        content: "!last-seen".to_string(),
        channel_id: 42,
        author_id: 1,
        server_id: Some(7),
        mentions: vec![
            Mention {
                user_id: 5,
                member: Some(Member {
                    user_id: 5,
                    name: "alice".to_string(),
                    nick: None,
                }),
            },
            Mention { user_id: 6, member: None },
        ],
    };
    let sends = process_message(&msg, &mhs, &mut ctx);
    assert_eq!(ctx.users.user_count(), 1);
    assert_eq!(sends.len(), 1);
    assert_eq!(
        sends[0].text,
        "alice last seen: 2015-05-15 00:00 UTCUID 6 last seen: never".to_string()
    );
}

#[test]
fn last_seen_with_no_mentions_sends_nothing() {
    let mut ctx = Context::new();
    let mut mhs = MessageHandlerStore::new();
    register_handlers(&mut mhs).unwrap();
    let sends = process_message(&message("!last-seen", Some(7)), &mhs, &mut ctx);
    assert!(sends.is_empty());
}

#[test]
fn last_seen_all_renders_a_table_for_the_server() {
    let mut ctx = Context::new();
    let mut mhs = MessageHandlerStore::new();
    register_handlers(&mut mhs).unwrap();
    ctx.user_seen(5, 0).unwrap();
    ctx.state = Some(StateSnapshot {
        servers: vec![ServerInfo {
            id: 7,
            members: vec![Member {
                user_id: 5,
                name: "alice".to_string(),
                nick: Some("Al".to_string()),
            }],
        }],
    });
    let sends = process_message(&message("!last-seen-all", Some(7)), &mhs, &mut ctx);
    assert_eq!(sends.len(), 1);
    let expected = format!("```\n{:20}\t1970-01-01 00:00 UTC\n\n```", "Al");
    assert_eq!(sends[0].text, expected);
}

#[test]
fn last_seen_all_outside_server_reports_an_error() {
    let mut ctx = Context::new();
    let mut mhs = MessageHandlerStore::new();
    register_handlers(&mut mhs).unwrap();
    let sends = process_message(&message("!last-seen-all", None), &mhs, &mut ctx);
    assert_eq!(sends.len(), 1);
    assert_eq!(
        sends[0].text,
        "Error: Can only be used on servers!".to_string()
    );
}

#[test]
fn debug_error_test_exercises_the_error_report_path() {
    let mut ctx = Context::new();
    let mut mhs = MessageHandlerStore::new();
    register_handlers(&mut mhs).unwrap();
    register_debug_handlers(&mut mhs).unwrap();
    let sends = process_message(&message("!debug-error-test", Some(7)), &mhs, &mut ctx);
    assert_eq!(sends.len(), 1);
    assert_eq!(sends[0].text, "Error: Error-Test!".to_string());
}

#[test]
fn debug_print_prefixes_dumps_the_table() {
    let mut ctx = Context::new();
    let mut mhs = MessageHandlerStore::new();
    register_handlers(&mut mhs).unwrap();
    register_debug_handlers(&mut mhs).unwrap();
    ctx.server_prefixes.set(8, "$".to_string());
    let sends = process_message(&message("!debug-print-prefixes", Some(7)), &mhs, &mut ctx);
    assert_eq!(sends.len(), 1);
    assert_eq!(sends[0].text, "Server ID\tPrefix\n\n8\t`$`".to_string());
}

#[test]
fn register_handlers_counts_registrations() {
    let mut mhs = MessageHandlerStore::new();
    assert_eq!(mhs.get_handler_count(), 0);
    let n = register_handlers(&mut mhs).unwrap();
    assert_eq!(n, 4);
    register_debug_handlers(&mut mhs).unwrap();
    assert_eq!(mhs.get_handler_count(), 6);
}

#[test]
fn repeated_prefix_occurrences_are_stripped() {
    let mut ctx = Context::new();
    let mut mhs = MessageHandlerStore::new();
    register_handlers(&mut mhs).unwrap();
    let sends = process_message(&message("!!help", Some(7)), &mhs, &mut ctx);
    assert_eq!(sends.len(), 1);
    assert_eq!(sends[0].text, HELP_TEXT.to_string());
}
