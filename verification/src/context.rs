//! The session context: the per-server prefix table, the user relation
//! the activity store maintains, and the state threaded through one
//! running connection.

use vstd::prelude::*;

use crate::error::BotError;
use crate::gateway::{ServerInfoView, StateSnapshot};
use crate::message_handler::{HandlerView, MessageHandlerStore};
use crate::models::{NewUser, User, MAX_TIMESTAMP};
use crate::text;

verus! {

/// The prefix a server's commands carry unless an override is set.
pub const DEFAULT_PREFIX: &'static str = "!";

/// The default command prefix, as a character sequence.
pub open spec fn default_prefix() -> Seq<char> {
    "!"@
}

/// The first entry for `server`, if any.
pub open spec fn lookup_prefix(entries: Seq<(u64, Seq<char>)>, server: u64) -> Option<Seq<char>>
    decreases entries.len(),
{
    if entries.len() == 0 {
        None
    } else if entries[0].0 == server {
        Some(entries[0].1)
    } else {
        lookup_prefix(entries.skip(1), server)
    }
}

/// `entries` with the entry for `server` replaced by `p`, or appended
/// when none exists.
pub open spec fn set_entry(entries: Seq<(u64, Seq<char>)>, server: u64, p: Seq<char>) -> Seq<
    (u64, Seq<char>),
>
    decreases entries.len(),
{
    if entries.len() == 0 {
        seq![(server, p)]
    } else if entries[0].0 == server {
        seq![(server, p)] + entries.skip(1)
    } else {
        seq![entries[0]] + set_entry(entries.skip(1), server, p)
    }
}

/// After a set, the set server resolves to the new prefix.
pub proof fn lemma_set_entry_same(entries: Seq<(u64, Seq<char>)>, server: u64, p: Seq<char>)
    ensures
        lookup_prefix(set_entry(entries, server, p), server) == Some(p),
    decreases entries.len(),
{
    let r = set_entry(entries, server, p);
    if entries.len() == 0 {
    } else if entries[0].0 == server {
    } else {
        lemma_set_entry_same(entries.skip(1), server, p);
        assert(r[0] == entries[0]);
        assert(r.skip(1) =~= set_entry(entries.skip(1), server, p));
    }
}

/// After a set, every other server resolves as before.
pub proof fn lemma_set_entry_other(
    entries: Seq<(u64, Seq<char>)>,
    server: u64,
    p: Seq<char>,
    other: u64,
)
    requires
        other != server,
    ensures
        lookup_prefix(set_entry(entries, server, p), other) == lookup_prefix(entries, other),
    decreases entries.len(),
{
    let r = set_entry(entries, server, p);
    if entries.len() == 0 {
        assert(r[0].0 == server);
        assert(r.skip(1) =~= entries);
    } else if entries[0].0 == server {
        assert(r.skip(1) =~= entries.skip(1));
        lemma_lookup_first_match_skipped(entries, server, p, other);
    } else {
        lemma_set_entry_other(entries.skip(1), server, p, other);
        assert(r[0] == entries[0]);
        assert(r.skip(1) =~= set_entry(entries.skip(1), server, p));
    }
}

proof fn lemma_lookup_first_match_skipped(
    entries: Seq<(u64, Seq<char>)>,
    server: u64,
    p: Seq<char>,
    other: u64,
)
    requires
        other != server,
        entries.len() > 0,
        entries[0].0 == server,
    ensures
        lookup_prefix(seq![(server, p)] + entries.skip(1), other) == lookup_prefix(
            entries,
            other,
        ),
{
    let r = seq![(server, p)] + entries.skip(1);
    assert(r[0].0 == server);
    assert(r.skip(1) =~= entries.skip(1));
}

/// Every prefix a lookup can return was one of the stored values.
pub proof fn lemma_lookup_is_stored(entries: Seq<(u64, Seq<char>)>, server: u64)
    ensures
        match lookup_prefix(entries, server) {
            Some(p) => exists|k: int| 0 <= k < entries.len() && entries[k].1 == p,
            None => true,
        },
    decreases entries.len(),
{
    if entries.len() > 0 {
        if entries[0].0 == server {
            assert(entries[0].1 == entries[0].1);
        } else {
            lemma_lookup_is_stored(entries.skip(1), server);
            if lookup_prefix(entries.skip(1), server) is Some {
                let p = lookup_prefix(entries.skip(1), server)->Some_0;
                let k = choose|k: int|
                    0 <= k < entries.skip(1).len() && entries.skip(1)[k].1 == p;
                assert(entries[k + 1].1 == p);
            }
        }
    }
}

/// The prefix a server resolves to in a table: its entry, or the default.
pub open spec fn resolve_prefix(entries: Seq<(u64, Seq<char>)>, server: u64) -> Seq<char> {
    match lookup_prefix(entries, server) {
        Some(p) => p,
        None => default_prefix(),
    }
}

/// The table of per-server command-prefix overrides. Servers without an
/// entry resolve to the process-wide default prefix.
pub struct PrefixTable {
    entries: Vec<(u64, String)>,
}

impl View for PrefixTable {
    type V = Seq<(u64, Seq<char>)>;

    closed spec fn view(&self) -> Seq<(u64, Seq<char>)> {
        self.entries@.map_values(|e: (u64, String)| (e.0, e.1@))
    }
}

impl PrefixTable {
    /// Every stored prefix is a single token: non-empty, no whitespace.
    pub open spec fn wf(self) -> bool {
        forall|k: int| 0 <= k < self@.len() ==> text::valid_token(#[trigger] self@[k].1)
    }

    /// The prefix `server` resolves to: its entry, or the default.
    pub open spec fn resolve_spec(self, server: u64) -> Seq<char> {
        resolve_prefix(self@, server)
    }

    /// An empty table: every server resolves to the default prefix.
    pub fn new() -> (t: Self)
        ensures
            t@ == Seq::<(u64, Seq<char>)>::empty(),
            t.wf(),
            forall|s: u64| t.resolve_spec(s) == default_prefix(),
    {
        let t = PrefixTable { entries: Vec::new() };
        proof {
            assert(t@ =~= Seq::<(u64, Seq<char>)>::empty());
        }
        t
    }

    /// Overwrites (or creates) the entry for `server` unconditionally.
    /// Afterwards `server` resolves to `prefix` and every other server
    /// resolves as before.
    pub fn set(&mut self, server: u64, prefix: String)
        requires
            old(self).wf(),
            text::valid_token(prefix@),
        ensures
            final(self).wf(),
            final(self)@ == set_entry(old(self)@, server, prefix@),
            final(self).resolve_spec(server) == prefix@,
            forall|o: u64|
                o != server ==> final(self).resolve_spec(o) == old(self).resolve_spec(o),
    {
        let ghost pre = self@;
        let n = self.entries.len();
        let mut i: usize = 0;
        proof {
            assert(pre.skip(0) =~= pre);
            assert(pre.subrange(0, 0) + set_entry(pre, server, prefix@) =~= set_entry(
                pre,
                server,
                prefix@,
            ));
        }
        while i < n
            invariant
                i <= n,
                n == self.entries@.len(),
                self@ == pre,
                pre == old(self)@,
                old(self).wf(),
                self.wf(),
                text::valid_token(prefix@),
                forall|k: int| 0 <= k < i ==> pre[k].0 != server,
                set_entry(pre, server, prefix@) == pre.subrange(0, i as int) + set_entry(
                    pre.skip(i as int),
                    server,
                    prefix@,
                ),
            decreases n - i,
        {
            if self.entries[i].0 == server {
                let ghost prei = i as int;
                self.entries[i] = (server, prefix);
                proof {
                    assert(pre.skip(prei)[0].0 == server);
                    assert(set_entry(pre.skip(prei), server, prefix@) =~= seq![
                        (server, prefix@),
                    ] + pre.skip(prei).skip(1));
                    assert(pre.skip(prei).skip(1) =~= pre.skip(prei + 1));
                    assert(self@ =~= pre.subrange(0, prei) + seq![(server, prefix@)] + pre.skip(
                        prei + 1,
                    ));
                    assert(self@ =~= set_entry(pre, server, prefix@));
                    lemma_set_entry_same(pre, server, prefix@);
                    assert forall|o: u64| o != server implies lookup_prefix(self@, o)
                        == lookup_prefix(pre, o) by {
                        lemma_set_entry_other(pre, server, prefix@, o);
                    }
                    assert forall|k: int| 0 <= k < self@.len() implies text::valid_token(
                        #[trigger] self@[k].1,
                    ) by {
                        if k != prei {
                            assert(self@[k] == pre[k]);
                        }
                    }
                }
                return ;
            }
            proof {
                let j = i as int;
                assert(pre.skip(j)[0].0 != server);
                assert(set_entry(pre.skip(j), server, prefix@) == seq![pre.skip(j)[0]]
                    + set_entry(pre.skip(j).skip(1), server, prefix@));
                assert(pre.skip(j).skip(1) =~= pre.skip(j + 1));
                assert(pre.subrange(0, j) + seq![pre.skip(j)[0]] =~= pre.subrange(0, j + 1));
                assert(pre.subrange(0, j) + (seq![pre.skip(j)[0]] + set_entry(
                    pre.skip(j + 1),
                    server,
                    prefix@,
                )) =~= pre.subrange(0, j + 1) + set_entry(pre.skip(j + 1), server, prefix@));
            }
            i = i + 1;
        }
        proof {
            assert(pre.skip(n as int) =~= Seq::<(u64, Seq<char>)>::empty());
            assert(set_entry(pre.skip(n as int), server, prefix@) =~= seq![(server, prefix@)]);
        }
        let ghost prepush = self.entries@;
        self.entries.push((server, prefix));
        proof {
            assert(self.entries@ =~= prepush.push((server, prefix)));
            assert(self@ =~= pre.push((server, prefix@)));
            assert(pre.subrange(0, n as int) =~= pre);
            assert(self@ =~= set_entry(pre, server, prefix@));
            lemma_set_entry_same(pre, server, prefix@);
            assert forall|o: u64| o != server implies lookup_prefix(self@, o) == lookup_prefix(
                pre,
                o,
            ) by {
                lemma_set_entry_other(pre, server, prefix@, o);
            }
            assert forall|k: int| 0 <= k < self@.len() implies text::valid_token(
                #[trigger] self@[k].1,
            ) by {
                if k < pre.len() {
                    assert(self@[k] == pre[k]);
                }
            }
        }
    }

    /// The prefix for `server`: its entry when one exists, the default
    /// otherwise. Never fails.
    pub fn resolve(&self, server: u64) -> (p: String)
        ensures
            p@ == self.resolve_spec(server),
    {
        let n = self.entries.len();
        let mut i: usize = 0;
        proof {
            assert(self@.skip(0) =~= self@);
        }
        while i < n
            invariant
                i <= n,
                n == self.entries@.len(),
                lookup_prefix(self@, server) == lookup_prefix(self@.skip(i as int), server),
            decreases n - i,
        {
            if self.entries[i].0 == server {
                assert(self@.skip(i as int)[0] == self@[i as int]);
                return self.entries[i].1.clone();
            }
            proof {
                assert(self@.skip(i as int)[0] == self@[i as int]);
                assert(self@.skip(i as int).skip(1) =~= self@.skip(i as int + 1));
            }
            i = i + 1;
        }
        proof {
            assert(self@.skip(n as int) =~= Seq::<(u64, Seq<char>)>::empty());
        }
        DEFAULT_PREFIX.to_owned()
    }

    /// A resolved prefix is always a single non-empty token.
    pub proof fn lemma_resolve_valid(self, server: u64)
        requires
            self.wf(),
        ensures
            text::valid_token(self.resolve_spec(server)),
    {
        reveal_strlit("!");
        assert(default_prefix().len() == 1);
        assert(!text::is_space(default_prefix()[0]));
        lemma_lookup_is_stored(self@, server);
    }

    /// The number of entries in the table.
    pub fn entry_count(&self) -> (n: usize)
        ensures
            n == self@.len(),
    {
        self.entries.len()
    }

    /// The entry at position `i`, in insertion order.
    pub fn entry_at(&self, i: usize) -> (e: (u64, String))
        requires
            i < self@.len(),
        ensures
            e.0 == self@[i as int].0,
            e.1@ == self@[i as int].1,
    {
        let e = &self.entries[i];
        (e.0, e.1.clone())
    }
}

/// The first record for `did`, if any.
pub open spec fn find_user(users: Seq<User>, did: i64) -> Option<User>
    decreases users.len(),
{
    if users.len() == 0 {
        None
    } else if users[0].discord_id == did {
        Some(users[0])
    } else {
        find_user(users.skip(1), did)
    }
}

/// How many records carry `did`.
pub open spec fn count_for(users: Seq<User>, did: i64) -> nat
    decreases users.len(),
{
    if users.len() == 0 {
        0
    } else {
        (if users[0].discord_id == did {
            1nat
        } else {
            0nat
        }) + count_for(users.skip(1), did)
    }
}

/// A sequence with no record for `did` counts zero.
pub proof fn lemma_count_zero(users: Seq<User>, did: i64)
    requires
        forall|k: int| 0 <= k < users.len() ==> users[k].discord_id != did,
    ensures
        count_for(users, did) == 0,
    decreases users.len(),
{
    if users.len() > 0 {
        assert(forall|k: int|
            0 <= k < users.skip(1).len() ==> users.skip(1)[k] == users[k + 1]);
        assert(forall|k: int| 1 <= k < users.len() ==> #[trigger] users[k] == users.skip(1)[k - 1]);
        lemma_count_zero(users.skip(1), did);
    }
}

/// A sequence whose only record for `did` sits at `i` counts one, and
/// the lookup finds that record.
pub proof fn lemma_single_match(users: Seq<User>, did: i64, i: int)
    requires
        0 <= i < users.len(),
        users[i].discord_id == did,
        forall|k: int| 0 <= k < users.len() && k != i ==> users[k].discord_id != did,
    ensures
        count_for(users, did) == 1,
        find_user(users, did) == Some(users[i]),
    decreases users.len(),
{
    assert(forall|k: int| 0 <= k < users.skip(1).len() ==> users.skip(1)[k] == users[k + 1]);
    assert(forall|k: int| 1 <= k < users.len() ==> #[trigger] users[k] == users.skip(1)[k - 1]);
    if i == 0 {
        lemma_count_zero(users.skip(1), did);
        lemma_find_none(users.skip(1), did);
    } else {
        lemma_single_match(users.skip(1), did, i - 1);
    }
}

/// A found record is one of the stored records.
pub proof fn lemma_find_is_stored(users: Seq<User>, did: i64)
    ensures
        match find_user(users, did) {
            Some(u) => exists|k: int| 0 <= k < users.len() && users[k] == u,
            None => true,
        },
    decreases users.len(),
{
    if users.len() > 0 {
        if users[0].discord_id == did {
            assert(users[0] == users[0]);
        } else {
            lemma_find_is_stored(users.skip(1), did);
            if find_user(users.skip(1), did) is Some {
                let u = find_user(users.skip(1), did)->Some_0;
                let k = choose|k: int| 0 <= k < users.skip(1).len() && users.skip(1)[k] == u;
                assert(users[k + 1] == u);
            }
        }
    }
}

/// There is no record for `did` exactly when the lookup finds none.
pub proof fn lemma_find_none(users: Seq<User>, did: i64)
    ensures
        (find_user(users, did) is None) <==> (forall|k: int|
            0 <= k < users.len() ==> users[k].discord_id != did),
    decreases users.len(),
{
    if users.len() > 0 {
        assert(forall|k: int|
            0 <= k < users.skip(1).len() ==> users.skip(1)[k] == users[k + 1]);
        assert(forall|k: int| 1 <= k < users.len() ==> #[trigger] users[k] == users.skip(1)[k - 1]);
        lemma_find_none(users.skip(1), did);
    }
}

/// Changing or adding a record for one id leaves lookups and counts for
/// every other id unchanged.
pub proof fn lemma_other_id_unchanged(users: Seq<User>, users2: Seq<User>, other: i64)
    requires
        users.len() <= users2.len(),
        forall|k: int| 0 <= k < users.len() ==> users2[k] == users[k] || users2[k].discord_id
            != other && users[k].discord_id != other,
        forall|k: int| users.len() <= k < users2.len() ==> users2[k].discord_id != other,
    ensures
        find_user(users2, other) == find_user(users, other),
        count_for(users2, other) == count_for(users, other),
    decreases users2.len(),
{
    if users.len() == 0 {
        lemma_find_none(users2, other);
        lemma_count_zero(users2, other);
    } else {
        assert(forall|k: int|
            0 <= k < users.skip(1).len() ==> users.skip(1)[k] == users[k + 1]);
        assert(forall|k: int|
            0 <= k < users2.skip(1).len() ==> users2.skip(1)[k] == users2[k + 1]);
        lemma_other_id_unchanged(users.skip(1), users2.skip(1), other);
    }
}

/// The relation and next id after an upsert for `did` at time `now`:
/// every record for `did` gets the new timestamp when one exists,
/// otherwise a fresh record is appended under the next internal id.
pub open spec fn touch_users(users: Seq<User>, next_id: i32, did: i64, now: u64) -> (
    Seq<User>,
    int,
) {
    match find_user(users, did) {
        Some(_) => (
            users.map_values(
                |u: User|
                    if u.discord_id == did {
                        User { id: u.id, discord_id: u.discord_id, last_seen: Some(now) }
                    } else {
                        u
                    },
            ),
            next_id as int,
        ),
        None => (
            users.push(User { id: next_id, discord_id: did, last_seen: Some(now) }),
            next_id + 1,
        ),
    }
}

/// The user relation the activity store maintains: the persisted records,
/// and the next internal id to assign.
pub struct UserTable {
    users: Vec<User>,
    next_id: i32,
}

impl View for UserTable {
    type V = Seq<User>;

    closed spec fn view(&self) -> Seq<User> {
        self.users@
    }
}

/// Whether an upsert for `did` can succeed: either a record exists to
/// update, or there is an internal id left to assign.
pub open spec fn touch_ok(users: Seq<User>, next_id: i32, did: i64) -> bool {
    find_user(users, did) is Some || next_id < i32::MAX
}

impl UserTable {
    /// The next internal id the table will assign.
    pub closed spec fn next_id_spec(self) -> i32 {
        self.next_id
    }

    /// External ids are unique across records, and every stored
    /// timestamp is representable.
    pub open spec fn wf(self) -> bool {
        &&& forall|i: int, j: int|
            0 <= i < j < self@.len() ==> self@[i].discord_id != self@[j].discord_id
        &&& forall|i: int|
            0 <= i < self@.len() ==> match #[trigger] self@[i].last_seen {
                Some(t) => t <= MAX_TIMESTAMP,
                None => true,
            }
        &&& self.next_id_spec() >= 1
    }

    /// An empty relation.
    pub fn new() -> (t: Self)
        ensures
            t@ == Seq::<User>::empty(),
            t.wf(),
            t.next_id_spec() == 1,
    {
        let t = UserTable { users: Vec::new(), next_id: 1 };
        proof {
            assert(t@ =~= Seq::<User>::empty());
        }
        t
    }

    /// How many records the relation holds.
    pub fn user_count(&self) -> (n: usize)
        ensures
            n == self@.len(),
    {
        self.users.len()
    }

    /// Looks a record up by external id.
    pub fn find(&self, did: i64) -> (r: Option<User>)
        ensures
            r == find_user(self@, did),
    {
        let n = self.users.len();
        let mut i: usize = 0;
        proof {
            assert(self@.skip(0) =~= self@);
        }
        while i < n
            invariant
                i <= n,
                n == self@.len(),
                find_user(self@, did) == find_user(self@.skip(i as int), did),
            decreases n - i,
        {
            if self.users[i].discord_id == did {
                assert(self@.skip(i as int)[0] == self@[i as int]);
                return Some(self.users[i]);
            }
            proof {
                assert(self@.skip(i as int)[0] == self@[i as int]);
                assert(self@.skip(i as int).skip(1) =~= self@.skip(i as int + 1));
            }
            i = i + 1;
        }
        proof {
            assert(self@.skip(n as int) =~= Seq::<User>::empty());
        }
        None
    }

    /// Creates a record for a never-seen external id. Fails when a record
    /// for the id already exists, or when the internal id space is
    /// exhausted.
    pub fn create(&mut self, did: i64, last_seen: Option<u64>) -> (r: Result<User, BotError>)
        requires
            old(self).wf(),
            match last_seen {
                Some(t) => t <= MAX_TIMESTAMP,
                None => true,
            },
        ensures
            final(self).wf(),
            (find_user(old(self)@, did) is None && old(self).next_id_spec() < i32::MAX) <==> (
            r is Ok),
            match r {
                Ok(u) => {
                    &&& u == (User { id: old(self).next_id_spec(), discord_id: did, last_seen })
                    &&& final(self)@ == old(self)@.push(u)
                    &&& final(self).next_id_spec() == old(self).next_id_spec() + 1
                    &&& find_user(final(self)@, did) == Some(u)
                    &&& count_for(final(self)@, did) == 1
                    &&& forall|o: i64|
                        o != did ==> #[trigger] find_user(final(self)@, o) == find_user(
                            old(self)@,
                            o,
                        ) && count_for(final(self)@, o) == count_for(old(self)@, o)
                },
                Err(e) => {
                    &&& final(self)@ == old(self)@
                    &&& final(self).next_id_spec() == old(self).next_id_spec()
                    &&& e.chain() == seq!["Error saving new user"@]
                },
            },
    {
        if self.find(did).is_some() || self.next_id == i32::MAX {
            return Err(BotError::new(String::from_str("Error saving new user")));
        }
        let new_user = NewUser { discord_id: did, last_seen };
        let u = User {
            id: self.next_id,
            discord_id: new_user.discord_id,
            last_seen: new_user.last_seen,
        };
        let ghost pre = self@;
        self.users.push(u);
        self.next_id = self.next_id + 1;
        proof {
            lemma_find_none(pre, did);
            assert(forall|k: int| 0 <= k < pre.len() ==> self@[k] == pre[k]);
            assert forall|k: int|
                0 <= k < self@.len() && k != pre.len() implies self@[k].discord_id != did by {
                assert(self@[k] == pre[k]);
            }
            lemma_single_match(self@, did, pre.len() as int);
            assert forall|a: int, b: int|
                0 <= a < b < self@.len() implies self@[a].discord_id
                != self@[b].discord_id by {
                if b < pre.len() {
                    assert(self@[a] == pre[a] && self@[b] == pre[b]);
                } else {
                    assert(self@[a] == pre[a]);
                    assert(self@[b] == u);
                }
            }
            assert forall|o: i64| o != did implies #[trigger] find_user(self@, o) == find_user(
                pre,
                o,
            ) && count_for(self@, o) == count_for(pre, o) by {
                lemma_other_id_unchanged(pre, self@, o);
            }
        }
        Ok(u)
    }

    /// Upserts the last-seen timestamp for an external id: updates the
    /// existing record, or creates one. Afterwards exactly one record
    /// exists for the id and it carries the given timestamp; every other
    /// id's records are untouched.
    pub fn touch(&mut self, did: i64, now: u64) -> (r: Result<User, BotError>)
        requires
            old(self).wf(),
            now <= MAX_TIMESTAMP,
        ensures
            final(self).wf(),
            touch_ok(old(self)@, old(self).next_id_spec(), did) <==> (r is Ok),
            match r {
                Ok(u) => {
                    &&& u.discord_id == did
                    &&& u.last_seen == Some(now)
                    &&& u.id == match find_user(old(self)@, did) {
                        Some(ou) => ou.id,
                        None => old(self).next_id_spec(),
                    }
                    &&& find_user(final(self)@, did) == Some(u)
                    &&& count_for(final(self)@, did) == 1
                    &&& final(self)@ == touch_users(old(self)@, old(self).next_id_spec(), did, now).0
                    &&& final(self).next_id_spec() as int == touch_users(
                        old(self)@,
                        old(self).next_id_spec(),
                        did,
                        now,
                    ).1
                    &&& forall|o: i64|
                        o != did ==> #[trigger] find_user(final(self)@, o) == find_user(
                            old(self)@,
                            o,
                        ) && count_for(final(self)@, o) == count_for(old(self)@, o)
                },
                Err(e) => {
                    &&& final(self)@ == old(self)@
                    &&& final(self).next_id_spec() == old(self).next_id_spec()
                    &&& e.chain() == seq!["Error saving new user"@]
                },
            },
    {
        let ghost pre = self@;
        let n = self.users.len();
        let mut i: usize = 0;
        while i < n
            invariant
                i <= n,
                n == self@.len(),
                self@ == pre,
                pre == old(self)@,
                now <= MAX_TIMESTAMP,
                self.next_id_spec() == old(self).next_id_spec(),
                old(self).wf(),
                self.wf(),
                forall|k: int| 0 <= k < i ==> pre[k].discord_id != did,
            decreases n - i,
        {
            if self.users[i].discord_id == did {
                let u = User { id: self.users[i].id, discord_id: did, last_seen: Some(now) };
                self.users[i] = u;
                proof {
                    assert(self@ =~= pre.update(i as int, u));
                    assert(forall|k: int|
                        0 <= k < pre.len() && k != i ==> self@[k] == pre[k]);
                    assert forall|k: int|
                        0 <= k < pre.len() && k != i as int implies pre[k].discord_id
                        != did by {
                        if k > i as int {
                            assert(pre[i as int].discord_id == did);
                            assert(pre[i as int].discord_id != pre[k].discord_id);
                        }
                    }
                    assert forall|k: int, j: int|
                        0 <= k < j < self@.len() implies self@[k].discord_id
                        != self@[j].discord_id by {
                        assert(self@[k].discord_id == pre[k].discord_id);
                        assert(self@[j].discord_id == pre[j].discord_id);
                    }
                    assert forall|k: int|
                        0 <= k < self@.len() && k != i as int implies self@[k].discord_id
                        != did by {
                        assert(self@[k] == pre[k]);
                    }
                    assert forall|k: int| 0 <= k < self@.len() implies match #[trigger] self@[k].last_seen {
                        Some(t) => t <= MAX_TIMESTAMP,
                        None => true,
                    } by {
                        if k != i as int {
                            assert(self@[k] == pre[k]);
                        }
                    }
                    assert(self.wf());
                    lemma_single_match(self@, did, i as int);
                    lemma_single_match(pre, did, i as int);
                    assert forall|o: i64| o != did implies #[trigger] find_user(self@, o)
                        == find_user(pre, o) && count_for(self@, o) == count_for(pre, o) by {
                        lemma_other_id_unchanged(pre, self@, o);
                    }
                    let tu = touch_users(pre, old(self).next_id_spec(), did, now).0;
                    assert forall|k: int| 0 <= k < pre.len() implies tu[k] == self@[k] by {
                        if k != i as int {
                            assert(pre[k].discord_id != did);
                        }
                    }
                    assert(self@ =~= tu);
                }
                return Ok(u);
            }
            i = i + 1;
        }
        proof {
            lemma_find_none(pre, did);
        }
        self.create(did, Some(now))
    }
}

#[verifier::ext_equal]
pub struct ContextView {
    pub servers: Seq<u64>,
    pub postgres_url_overwrite: Option<Seq<char>>,
    pub server_prefixes: Seq<(u64, Seq<char>)>,
    pub handlers: Seq<(Seq<char>, HandlerView)>,
    pub users: Seq<User>,
    pub users_next_id: i32,
    pub state: Option<Seq<ServerInfoView>>,
}

/// The mutable state threaded through one running connection: the known
/// servers, the prefix table, the handler registry, the user relation,
/// and the platform-state snapshot of the current connection.
pub struct Context {
    /// Identifiers of all known servers.
    pub servers: Vec<u64>,
    /// Optional override of the database location, in place of the
    /// environment's value.
    pub postgres_url_overwrite: Option<String>,
    /// Per-server command-prefix overrides.
    pub server_prefixes: PrefixTable,
    /// Store of all known message handlers.
    pub handler_store: MessageHandlerStore,
    /// The user relation the activity store maintains.
    pub users: UserTable,
    /// The platform-state snapshot installed on the last connect.
    pub state: Option<StateSnapshot>,
}

impl View for Context {
    type V = ContextView;

    open spec fn view(&self) -> ContextView {
        ContextView {
            servers: self.servers@,
            postgres_url_overwrite: match self.postgres_url_overwrite {
                Some(u) => Some(u@),
                None => None,
            },
            server_prefixes: self.server_prefixes@,
            handlers: self.handler_store@,
            users: self.users@,
            users_next_id: self.users.next_id_spec(),
            state: match &self.state {
                Some(s) => Some(s@),
                None => None,
            },
        }
    }
}

impl Context {
    /// The prefix table and the user relation are well formed.
    pub open spec fn wf(self) -> bool {
        self.server_prefixes.wf() && self.users.wf()
    }

    /// A fresh context: no servers, no overrides, no handlers, no users,
    /// no snapshot.
    pub fn new() -> (c: Self)
        ensures
            c.wf(),
            c@.servers == Seq::<u64>::empty(),
            c@.postgres_url_overwrite is None,
            c@.server_prefixes == Seq::<(u64, Seq<char>)>::empty(),
            c@.handlers == Seq::<(Seq<char>, HandlerView)>::empty(),
            c@.users == Seq::<User>::empty(),
            c@.users_next_id == 1,
            c@.state is None,
    {
        Context {
            servers: Vec::new(),
            postgres_url_overwrite: None,
            server_prefixes: PrefixTable::new(),
            handler_store: MessageHandlerStore::new(),
            users: UserTable::new(),
            state: None,
        }
    }

    /// The database location: the override when one is set, otherwise
    /// the environment's value, which the caller reads and passes in.
    /// Fails when neither is present.
    pub fn get_postgres_url(&self, env_url: Option<String>) -> (r: Result<String, BotError>)
        ensures
            match (self@.postgres_url_overwrite, env_url) {
                (Some(u), _) => r matches Ok(s) && s@ == u,
                (None, Some(u)) => r matches Ok(s) && s@ == u@,
                (None, None) => r matches Err(e) && e.chain() == seq![
                    "DATABASE_URL must be set!"@,
                ],
            },
    {
        if let Some(url) = &self.postgres_url_overwrite {
            Ok(url.clone())
        } else if let Some(url) = env_url {
            Ok(url)
        } else {
            Err(BotError::new(String::from_str("DATABASE_URL must be set!")))
        }
    }

    /// Installs the platform-state snapshot taken on a successful
    /// connect.
    pub fn set_state(&mut self, snapshot: StateSnapshot)
        ensures
            final(self)@ == (ContextView { state: Some(snapshot@), ..old(self)@ }),
            final(self).wf() == old(self).wf(),
    {
        self.state = Some(snapshot);
    }

    /// Upserts the last-seen timestamp for the platform user `uid`.
    pub fn user_seen(&mut self, uid: u64, now: u64) -> (r: Result<User, BotError>)
        requires
            old(self).wf(),
            now <= MAX_TIMESTAMP,
        ensures
            final(self).wf(),
            final(self)@ == (ContextView {
                users: final(self)@.users,
                users_next_id: final(self)@.users_next_id,
                ..old(self)@
            }),
            touch_ok(old(self)@.users, old(self)@.users_next_id, uid as i64) <==> (r is Ok),
            match r {
                Ok(u) => {
                    &&& u.discord_id == uid as i64
                    &&& u.last_seen == Some(now)
                    &&& find_user(final(self)@.users, uid as i64) == Some(u)
                    &&& count_for(final(self)@.users, uid as i64) == 1
                    &&& final(self)@.users == touch_users(
                        old(self)@.users,
                        old(self)@.users_next_id,
                        uid as i64,
                        now,
                    ).0
                    &&& final(self)@.users_next_id as int == touch_users(
                        old(self)@.users,
                        old(self)@.users_next_id,
                        uid as i64,
                        now,
                    ).1
                    &&& forall|o: i64|
                        o != uid as i64 ==> #[trigger] find_user(final(self)@.users, o)
                            == find_user(old(self)@.users, o) && count_for(final(self)@.users, o)
                            == count_for(old(self)@.users, o)
                },
                Err(e) => {
                    &&& final(self)@ == old(self)@
                    &&& e.chain() == seq!["Error saving new user"@]
                },
            },
    {
        let did = #[verifier::truncate] (uid as i64);
        self.users.touch(did, now)
    }

    /// Creates a user record in the given relation, with the internal id
    /// the relation assigns.
    pub fn create_user(users: &mut UserTable, discord_id: i64, last_seen: Option<u64>) -> (r:
        Result<User, BotError>)
        requires
            old(users).wf(),
            match last_seen {
                Some(t) => t <= MAX_TIMESTAMP,
                None => true,
            },
        ensures
            final(users).wf(),
            (find_user(old(users)@, discord_id) is None && old(users).next_id_spec()
                < i32::MAX) <==> (r is Ok),
            match r {
                Ok(u) => {
                    &&& u == (User {
                        id: old(users).next_id_spec(),
                        discord_id,
                        last_seen,
                    })
                    &&& final(users)@ == old(users)@.push(u)
                },
                Err(e) => {
                    &&& final(users)@ == old(users)@
                    &&& e.chain() == seq!["Error saving new user"@]
                },
            },
    {
        users.create(discord_id, last_seen)
    }

    /// The command prefix of `server`: its override when set, the
    /// default otherwise.
    pub fn get_server_prefix(&self, server: u64) -> (p: String)
        ensures
            p@ == self.server_prefixes.resolve_spec(server),
    {
        self.server_prefixes.resolve(server)
    }
}

} // verus!
