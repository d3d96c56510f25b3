use seenbot::context::{Context, PrefixTable, DEFAULT_PREFIX};

#[test]
fn resolve_returns_default_before_any_set() {
    let table = PrefixTable::new();
    assert_eq!(table.resolve(1), "!".to_string());
    assert_eq!(table.resolve(99), DEFAULT_PREFIX.to_string());
}

#[test]
fn resolve_returns_most_recently_set_value() {
    let mut table = PrefixTable::new();
    table.set(1, "$".to_string());
    assert_eq!(table.resolve(1), "$".to_string());
    table.set(1, "%".to_string());
    assert_eq!(table.resolve(1), "%".to_string());
    // other servers still resolve to the default
    assert_eq!(table.resolve(2), "!".to_string());
}

#[test]
fn set_keeps_other_servers_unchanged() {
    let mut table = PrefixTable::new();
    table.set(1, "$".to_string());
    table.set(2, "?".to_string());
    assert_eq!(table.resolve(1), "$".to_string());
    assert_eq!(table.resolve(2), "?".to_string());
    assert_eq!(table.entry_count(), 2);
    assert_eq!(table.entry_at(0), (1, "$".to_string()));
    assert_eq!(table.entry_at(1), (2, "?".to_string()));
}

#[test]
fn context_resolves_prefix_through_table() {
    let mut ctx = Context::new();
    assert_eq!(ctx.get_server_prefix(7), "!".to_string());
    ctx.server_prefixes.set(7, "$".to_string());
    assert_eq!(ctx.get_server_prefix(7), "$".to_string());
}
