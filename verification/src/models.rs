//! Records of the persisted user relation.

use vstd::prelude::*;

verus! {

/// The last representable timestamp, in seconds since the epoch: the end
/// of year 9999, the last moment the four-digit time rendering covers.
pub const MAX_TIMESTAMP: u64 = 253402300799;

/// A persisted user record: an internal id, the chat platform's stable
/// id for the user, and the last time the user was seen, if ever.
#[derive(Clone, Copy, Debug)]
pub struct User {
    pub id: i32,
    pub discord_id: i64,
    pub last_seen: Option<u64>,
}

/// The data of a user record about to be created; the internal id is
/// assigned by the store.
#[derive(Clone, Copy)]
pub struct NewUser {
    pub discord_id: i64,
    pub last_seen: Option<u64>,
}

} // verus!
