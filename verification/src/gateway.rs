//! The data the chat gateway delivers, modelled as plain values: messages,
//! membership, presence, and the events of one session. The gateway itself
//! (the transport, the wire format) stays outside the library; callers
//! construct these values and perform the sends the library returns.

use vstd::prelude::*;

verus! {

/// A user's presence status on the platform.
#[derive(Clone, Copy, PartialEq, Eq, Structural)]
pub enum OnlineStatus {
    Online,
    Idle,
    DoNotDisturb,
    Offline,
}

/// One user's presence on one server.
#[derive(Clone, Copy, PartialEq, Eq, Structural)]
pub struct Presence {
    pub user_id: u64,
    pub status: OnlineStatus,
}

/// A member of a server: the user's id, account name, and optional
/// per-server nickname.
pub struct Member {
    pub user_id: u64,
    pub name: String,
    pub nick: Option<String>,
}

#[verifier::ext_equal]
pub struct MemberView {
    pub user_id: u64,
    pub name: Seq<char>,
    pub nick: Option<Seq<char>>,
}

impl View for Member {
    type V = MemberView;

    open spec fn view(&self) -> MemberView {
        MemberView {
            user_id: self.user_id,
            name: self.name@,
            nick: match self.nick {
                Some(n) => Some(n@),
                None => None,
            },
        }
    }
}

/// The name a member is shown under: the nickname when one is set,
/// the account name otherwise.
pub open spec fn member_display(m: MemberView) -> Seq<char> {
    match m.nick {
        Some(n) => n,
        None => m.name,
    }
}

impl Member {
    /// The name this member is shown under.
    pub fn display_name(&self) -> (r: &str)
        ensures
            r@ == member_display(self@),
    {
        match &self.nick {
            Some(n) => n.as_str(),
            None => self.name.as_str(),
        }
    }
}

impl Clone for Member {
    fn clone(&self) -> (r: Self)
        ensures
            r@ == self@,
    {
        Member {
            user_id: self.user_id,
            name: self.name.clone(),
            nick: match &self.nick {
                Some(n) => Some(n.clone()),
                None => None,
            },
        }
    }
}

/// One server in the platform-state snapshot taken at connect time.
pub struct ServerInfo {
    pub id: u64,
    pub members: Vec<Member>,
}

#[verifier::ext_equal]
pub struct ServerInfoView {
    pub id: u64,
    pub members: Seq<MemberView>,
}

impl View for ServerInfo {
    type V = ServerInfoView;

    open spec fn view(&self) -> ServerInfoView {
        ServerInfoView { id: self.id, members: self.members@.map_values(|m: Member| m@) }
    }
}

/// The platform-state snapshot installed on each successful connect.
pub struct StateSnapshot {
    pub servers: Vec<ServerInfo>,
}

impl View for StateSnapshot {
    type V = Seq<ServerInfoView>;

    open spec fn view(&self) -> Seq<ServerInfoView> {
        self.servers@.map_values(|s: ServerInfo| s@)
    }
}

/// A user mentioned in a message, together with the member record the
/// caller resolved for them, if any server knew the user.
pub struct Mention {
    pub user_id: u64,
    pub member: Option<Member>,
}

#[verifier::ext_equal]
pub struct MentionView {
    pub user_id: u64,
    pub member: Option<MemberView>,
}

impl View for Mention {
    type V = MentionView;

    open spec fn view(&self) -> MentionView {
        MentionView {
            user_id: self.user_id,
            member: match self.member {
                Some(m) => Some(m@),
                None => None,
            },
        }
    }
}

impl Clone for Mention {
    fn clone(&self) -> (r: Self)
        ensures
            r@ == self@,
    {
        Mention {
            user_id: self.user_id,
            member: match &self.member {
                Some(m) => Some(m.clone()),
                None => None,
            },
        }
    }
}

/// Copies a list of mentions.
pub fn clone_mentions(v: &Vec<Mention>) -> (r: Vec<Mention>)
    ensures
        r@.map_values(|m: Mention| m@) == v@.map_values(|m: Mention| m@),
{
    let mut r: Vec<Mention> = Vec::new();
    let mut i: usize = 0;
    while i < v.len()
        invariant
            i <= v@.len(),
            r@.map_values(|m: Mention| m@) =~= v@.subrange(0, i as int).map_values(
                |m: Mention| m@,
            ),
        decreases v@.len() - i,
    {
        let m = v[i].clone();
        proof {
            assert(r@.push(m).map_values(|m: Mention| m@) =~= r@.map_values(
                |m: Mention| m@,
            ).push(m@));
            assert(v@.subrange(0, i as int).push(v@[i as int]) =~= v@.subrange(0, i as int + 1));
            assert(v@.subrange(0, i as int).map_values(|m: Mention| m@).push(v@[i as int]@)
                =~= v@.subrange(0, i as int + 1).map_values(|m: Mention| m@));
        }
        r.push(m);
        i = i + 1;
    }
    proof {
        assert(v@.subrange(0, v@.len() as int) =~= v@);
    }
    r
}

/// An inbound text message: its content, where it was written, by whom,
/// the server the channel belongs to (`None` for a direct channel), and
/// the users it mentions.
pub struct Message {
    pub content: String,
    pub channel_id: u64,
    pub author_id: u64,
    pub server_id: Option<u64>,
    pub mentions: Vec<Mention>,
}

#[verifier::ext_equal]
pub struct MessageView {
    pub content: Seq<char>,
    pub channel_id: u64,
    pub author_id: u64,
    pub server_id: Option<u64>,
    pub mentions: Seq<MentionView>,
}

impl View for Message {
    type V = MessageView;

    open spec fn view(&self) -> MessageView {
        MessageView {
            content: self.content@,
            channel_id: self.channel_id,
            author_id: self.author_id,
            server_id: self.server_id,
            mentions: self.mentions@.map_values(|m: Mention| m@),
        }
    }
}

/// An outbound "send this text to that channel" action. The library
/// returns these; the caller delivers them.
pub struct SendMessage {
    pub channel_id: u64,
    pub text: String,
}

#[verifier::ext_equal]
pub struct SendView {
    pub channel_id: u64,
    pub text: Seq<char>,
}

impl View for SendMessage {
    type V = SendView;

    open spec fn view(&self) -> SendView {
        SendView { channel_id: self.channel_id, text: self.text@ }
    }
}

/// The view of a list of outbound sends.
pub open spec fn sends_view(v: Seq<SendMessage>) -> Seq<SendView> {
    v.map_values(|s: SendMessage| s@)
}

/// A server the gateway announced: online with its current presences,
/// or known but unavailable.
pub enum PossibleServer {
    Online(JoinedServer),
    Offline(u64),
}

/// An online server as announced by the gateway.
pub struct JoinedServer {
    pub server_id: u64,
    pub presences: Vec<Presence>,
}

#[verifier::ext_equal]
pub struct JoinedServerView {
    pub server_id: u64,
    pub presences: Seq<Presence>,
}

impl View for JoinedServer {
    type V = JoinedServerView;

    open spec fn view(&self) -> JoinedServerView {
        JoinedServerView { server_id: self.server_id, presences: self.presences@ }
    }
}

#[verifier::ext_equal]
pub enum PossibleServerView {
    Online(JoinedServerView),
    Offline(u64),
}

impl View for PossibleServer {
    type V = PossibleServerView;

    open spec fn view(&self) -> PossibleServerView {
        match self {
            PossibleServer::Online(js) => PossibleServerView::Online(js@),
            PossibleServer::Offline(id) => PossibleServerView::Offline(*id),
        }
    }
}

/// One event pulled from the gateway's stream.
pub enum Event {
    MessageCreate(Message),
    ServerCreate(PossibleServer),
    ReactionAdd { user_id: u64 },
    TypingStart { user_id: u64 },
    PresenceUpdate { presence: Presence },
    Unknown,
}

#[verifier::ext_equal]
pub enum EventView {
    MessageCreate(MessageView),
    ServerCreate(PossibleServerView),
    ReactionAdd { user_id: u64 },
    TypingStart { user_id: u64 },
    PresenceUpdate { presence: Presence },
    Unknown,
}

impl View for Event {
    type V = EventView;

    open spec fn view(&self) -> EventView {
        match self {
            Event::MessageCreate(m) => EventView::MessageCreate(m@),
            Event::ServerCreate(s) => EventView::ServerCreate(s@),
            Event::ReactionAdd { user_id } => EventView::ReactionAdd { user_id: *user_id },
            Event::TypingStart { user_id } => EventView::TypingStart { user_id: *user_id },
            Event::PresenceUpdate { presence } => EventView::PresenceUpdate {
                presence: *presence,
            },
            Event::Unknown => EventView::Unknown,
        }
    }
}

} // verus!
