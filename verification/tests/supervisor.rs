use seenbot::context::Context;
use seenbot::error::BotError;
use seenbot::gateway::{
    Event, JoinedServer, Message, OnlineStatus, PossibleServer, Presence,
};
use seenbot::handlers::HELP_TEXT;
use seenbot::message_handler::MessageHandlerStore;
use seenbot::session::{
    get_last_seen_time, register_handlers, route, run, ConnectAttempt, RunOutcome, TimedEvent,
};
use seenbot::gateway::StateSnapshot;

fn text_message(content: &str) -> Message {
    Message {
        content: content.to_string(),
        channel_id: 42,
        author_id: 9,
        server_id: Some(7),
        mentions: Vec::new(),
    }
}

fn empty_snapshot() -> StateSnapshot {
    StateSnapshot { servers: Vec::new() }
}

#[test]
fn five_consecutive_connect_failures_are_fatal_after_five_attempts() {
    let mut ctx = Context::new();
    let mhs = MessageHandlerStore::new();
    let trace: Vec<ConnectAttempt> = (0..5)
        .map(|_| ConnectAttempt::Failed(BotError::new("connection refused".to_string())))
        .collect();
    let (outcome, sends, attempts) = run(&mut ctx, &mhs, trace, 5);
    assert_eq!(attempts, 5);
    assert!(sends.is_empty());
    match outcome {
        RunOutcome::Fatal(e) => {
            assert_eq!(
                e.messages,
                vec![
                    "Failed to connect".to_string(),
                    "connection refused".to_string()
                ]
            );
        }
        RunOutcome::TraceEnded => panic!("expected a fatal outcome"),
    }
}

#[test]
fn a_successful_connect_resets_the_failure_counter() {
    let mut ctx = Context::new();
    let mhs = MessageHandlerStore::new();
    let mut trace: Vec<ConnectAttempt> = Vec::new();
    for _ in 0..4 {
        trace.push(ConnectAttempt::Failed(BotError::new("down".to_string())));
    }
    trace.push(ConnectAttempt::Connected(empty_snapshot(), Vec::new()));
    for _ in 0..4 {
        trace.push(ConnectAttempt::Failed(BotError::new("down".to_string())));
    }
    let (outcome, _sends, attempts) = run(&mut ctx, &mhs, trace, 5);
    assert_eq!(attempts, 9);
    assert!(matches!(outcome, RunOutcome::TraceEnded));
}

#[test]
fn pumped_events_are_routed_and_sends_collected() {
    let mut ctx = Context::new();
    let mut mhs = MessageHandlerStore::new();
    register_handlers(&mut mhs).unwrap();
    let events = vec![
        TimedEvent { at: 100, event: Event::ReactionAdd { user_id: 3 } },
        TimedEvent {
            at: 200,
            event: Event::MessageCreate(text_message("!help")),
        },
        TimedEvent { at: 300, event: Event::Unknown },
    ];
    let trace = vec![ConnectAttempt::Connected(empty_snapshot(), events)];
    let (outcome, sends, attempts) = run(&mut ctx, &mhs, trace, 5);
    assert!(matches!(outcome, RunOutcome::TraceEnded));
    assert_eq!(attempts, 1);
    assert_eq!(sends.len(), 1);
    assert_eq!(sends[0].text, HELP_TEXT.to_string());
    assert_eq!(get_last_seen_time(&ctx, 3).unwrap(), Some(100));
    // the message's author was recorded as active
    assert_eq!(get_last_seen_time(&ctx, 9).unwrap(), Some(200));
}

#[test]
fn reaction_typing_and_presence_record_activity() {
    let mut ctx = Context::new();
    let mhs = MessageHandlerStore::new();
    route(&mut ctx, &mhs, &Event::ReactionAdd { user_id: 1 }, 10).unwrap();
    route(&mut ctx, &mhs, &Event::TypingStart { user_id: 2 }, 20).unwrap();
    route(
        &mut ctx,
        &mhs,
        &Event::PresenceUpdate {
            presence: Presence { user_id: 3, status: OnlineStatus::Idle },
        },
        30,
    )
    .unwrap();
    route(
        &mut ctx,
        &mhs,
        &Event::PresenceUpdate {
            presence: Presence { user_id: 4, status: OnlineStatus::Offline },
        },
        40,
    )
    .unwrap();
    assert_eq!(get_last_seen_time(&ctx, 1).unwrap(), Some(10));
    assert_eq!(get_last_seen_time(&ctx, 2).unwrap(), Some(20));
    assert_eq!(get_last_seen_time(&ctx, 3).unwrap(), Some(30));
    // an offline presence is not activity
    assert_eq!(get_last_seen_time(&ctx, 4).unwrap(), None);
}

#[test]
fn server_join_records_non_offline_presences() {
    let mut ctx = Context::new();
    let mhs = MessageHandlerStore::new();
    let event = Event::ServerCreate(PossibleServer::Online(JoinedServer {
        server_id: 7,
        presences: vec![
            Presence { user_id: 1, status: OnlineStatus::Online },
            Presence { user_id: 2, status: OnlineStatus::Offline },
            Presence { user_id: 3, status: OnlineStatus::DoNotDisturb },
        ],
    }));
    let sends = route(&mut ctx, &mhs, &event, 50).unwrap();
    assert!(sends.is_empty());
    assert_eq!(ctx.servers, vec![7]);
    assert_eq!(get_last_seen_time(&ctx, 1).unwrap(), Some(50));
    assert_eq!(get_last_seen_time(&ctx, 2).unwrap(), None);
    assert_eq!(get_last_seen_time(&ctx, 3).unwrap(), Some(50));
}

#[test]
fn offline_server_announcement_is_ignored() {
    let mut ctx = Context::new();
    let mhs = MessageHandlerStore::new();
    let sends = route(
        &mut ctx,
        &mhs,
        &Event::ServerCreate(PossibleServer::Offline(7)),
        50,
    )
    .unwrap();
    assert!(sends.is_empty());
    assert!(ctx.servers.is_empty());
    assert_eq!(ctx.users.user_count(), 0);
}
