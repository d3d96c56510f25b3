use seenbot::context::Context;
use seenbot::context::UserTable;
use seenbot::session::get_last_seen_time;

#[test]
fn touch_creates_then_updates_single_record() {
    let mut ctx = Context::new();
    assert_eq!(ctx.users.user_count(), 0);

    let u1 = ctx.user_seen(5, 100).unwrap();
    assert_eq!(u1.discord_id, 5);
    assert_eq!(u1.last_seen, Some(100));
    assert_eq!(ctx.users.user_count(), 1);

    let u2 = ctx.user_seen(5, 200).unwrap();
    assert_eq!(u2.discord_id, 5);
    assert_eq!(u2.last_seen, Some(200));
    assert_eq!(u2.id, u1.id);
    assert_eq!(ctx.users.user_count(), 1);

    assert_eq!(get_last_seen_time(&ctx, 5).unwrap(), Some(200));
}

#[test]
fn touch_keeps_other_users_untouched() {
    let mut ctx = Context::new();
    ctx.user_seen(5, 100).unwrap();
    ctx.user_seen(6, 150).unwrap();
    ctx.user_seen(5, 300).unwrap();
    assert_eq!(ctx.users.user_count(), 2);
    assert_eq!(get_last_seen_time(&ctx, 5).unwrap(), Some(300));
    assert_eq!(get_last_seen_time(&ctx, 6).unwrap(), Some(150));
}

#[test]
fn last_seen_of_unknown_user_is_none() {
    let ctx = Context::new();
    assert_eq!(get_last_seen_time(&ctx, 99).unwrap(), None);
}

#[test]
fn create_user_rejects_duplicate_external_id() {
    let mut table = UserTable::new();
    let u = Context::create_user(&mut table, 5, None).unwrap();
    assert_eq!(u.discord_id, 5);
    assert_eq!(u.last_seen, None);
    let err = Context::create_user(&mut table, 5, Some(10)).unwrap_err();
    assert_eq!(err.messages, vec!["Error saving new user".to_string()]);
    assert!(table.find(5).is_some());
}

#[test]
fn create_user_assigns_fresh_ids() {
    let mut table = UserTable::new();
    let a = Context::create_user(&mut table, 1, None).unwrap();
    let b = Context::create_user(&mut table, 2, None).unwrap();
    assert_ne!(a.id, b.id);
    assert_eq!(table.find(2).unwrap().id, b.id);
}

#[test]
fn postgres_url_prefers_overwrite_then_env() {
    let mut ctx = Context::new();
    assert_eq!(
        ctx.get_postgres_url(Some("postgres://env".to_string())).unwrap(),
        "postgres://env".to_string()
    );
    let err = ctx.get_postgres_url(None).unwrap_err();
    assert_eq!(err.messages, vec!["DATABASE_URL must be set!".to_string()]);
    ctx.postgres_url_overwrite = Some("postgres://local".to_string());
    assert_eq!(
        ctx.get_postgres_url(Some("postgres://env".to_string())).unwrap(),
        "postgres://local".to_string()
    );
}
