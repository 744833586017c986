use vstd::prelude::*;
use vstd::string::StrSliceExecFns;

use vstd::utf8::{decode_utf8, encode_utf8, valid_utf8};

use crate::command::QalamCommand;
use crate::digest::sha256_digest;
use crate::direct::{QalamDirectRequest, QalamDirectResponse};
use crate::event::QalamEvent;
use crate::peer::PeerId;
use crate::room::{
    is_uuid_v7, lemma_room_topic_injective, new_id_context, new_message_id, room_preimage, room_topic,
    ChatMessage, RoomId,
};
use crate::time::{duration_millis, ClockError, QalamTime};
use std::time::Duration;
use crate::text::{
    crlf, join_crlf, join_lines, lemma_lines_roundtrip, split_lines, split_lines_of, texts,
    transmittable, utf8_to_string,
};

verus! {

/// The room whose topic is `topic` among `rooms`, if one is.
pub open spec fn topic_owner(rooms: Set<Seq<u8>>, topic: Seq<char>) -> Option<Seq<u8>> {
    if exists|r: Seq<u8>| rooms.contains(r) && room_topic(r) == topic {
        Some(choose|r: Seq<u8>| rooms.contains(r) && room_topic(r) == topic)
    } else {
        None
    }
}

/// A room that was joined is the one its topic belongs to.
pub proof fn lemma_topic_owner_of_member(rooms: Set<Seq<u8>>, r: Seq<u8>)
    requires
        rooms.contains(r),
    ensures
        topic_owner(rooms, room_topic(r)) == Some(r),
{
    let t = room_topic(r);
    assert(rooms.contains(r) && room_topic(r) == t);
    let c = choose|x: Seq<u8>| rooms.contains(x) && room_topic(x) == t;
    lemma_room_topic_injective(c, r);
}

/// After a room is joined, its topic belongs to it.
pub proof fn lemma_join_then_deliver(rooms: Set<Seq<u8>>, r: Seq<u8>)
    ensures
        topic_owner(rooms.insert(r), room_topic(r)) == Some(r),
{
    lemma_topic_owner_of_member(rooms.insert(r), r);
}

/// After a room is left, its topic belongs to no room.
pub proof fn lemma_leave_then_silent(rooms: Set<Seq<u8>>, r: Seq<u8>)
    ensures
        topic_owner(rooms.remove(r), room_topic(r)) is None,
{
    let t = room_topic(r);
    if exists|x: Seq<u8>| rooms.remove(r).contains(x) && room_topic(x) == t {
        let x = choose|x: Seq<u8>| rooms.remove(r).contains(x) && room_topic(x) == t;
        lemma_room_topic_injective(x, r);
    }
}

/// The topics of a set of rooms.
pub open spec fn topics_of(rooms: Set<Seq<u8>>) -> Set<Seq<char>> {
    rooms.map(|r: Seq<u8>| room_topic(r))
}

/// The topics subscribed to after a subscribe call: a call that succeeded adds the
/// topic, a failed one changes nothing.
pub open spec fn after_subscribe(subs: Set<Seq<char>>, topic: Seq<char>, ok: bool) -> Set<Seq<char>> {
    if ok {
        subs.insert(topic)
    } else {
        subs
    }
}

/// The topics subscribed to after an unsubscribe call: a call that succeeded removes
/// the topic, and one that reports nothing to remove changes nothing.
pub open spec fn after_unsubscribe(subs: Set<Seq<char>>, topic: Seq<char>, ok: bool) -> Set<Seq<char>> {
    if ok {
        subs.remove(topic)
    } else {
        subs
    }
}

/// While the topics of the joined rooms are the topics subscribed to, they stay so
/// after a room is joined or left, whatever the subscribe or unsubscribe call
/// answered, as `finish_join` and `finish_leave` record that answer.
pub proof fn lemma_joined_rooms_follow_subscriptions(
    joined: Set<Seq<u8>>,
    subs: Set<Seq<char>>,
    room: Seq<u8>,
    ok: bool,
)
    requires
        subs == topics_of(joined),
    ensures
        after_subscribe(subs, room_topic(room), ok) == topics_of(
            if ok {
                joined.insert(room)
            } else {
                joined
            },
        ),
        after_unsubscribe(subs, room_topic(room), ok) == topics_of(
            if ok {
                joined.remove(room)
            } else {
                joined
            },
        ),
{
    let t = room_topic(room);
    if ok {
        assert forall|x: Seq<char>| #[trigger] subs.insert(t).contains(x) == topics_of(joined.insert(room)).contains(x) by {
            if subs.insert(t).contains(x) {
                if x == t {
                    assert(joined.insert(room).contains(room));
                } else {
                    let r = choose|r: Seq<u8>| joined.contains(r) && x == room_topic(r);
                    assert(joined.insert(room).contains(r));
                }
            }
            if topics_of(joined.insert(room)).contains(x) {
                let r = choose|r: Seq<u8>| joined.insert(room).contains(r) && x == room_topic(r);
                if r != room {
                    assert(joined.contains(r));
                }
            }
        }
        assert(subs.insert(t) =~= topics_of(joined.insert(room)));
        assert forall|x: Seq<char>| #[trigger] subs.remove(t).contains(x) == topics_of(joined.remove(room)).contains(x) by {
            if subs.remove(t).contains(x) {
                let r = choose|r: Seq<u8>| joined.contains(r) && x == room_topic(r);
                assert(r != room);
                assert(joined.remove(room).contains(r));
            }
            if topics_of(joined.remove(room)).contains(x) {
                let r = choose|r: Seq<u8>| joined.remove(room).contains(r) && x == room_topic(r);
                if x == t {
                    lemma_room_topic_injective(r, room);
                }
                assert(joined.contains(r));
            }
        }
        assert(subs.remove(t) =~= topics_of(joined.remove(room)));
    }
}

/// The rooms this peer has joined, each once.
#[derive(Debug)]
pub struct JoinedRooms {
    rooms: Vec<RoomId>,
}

impl View for JoinedRooms {
    type V = Set<Seq<u8>>;

    closed spec fn view(&self) -> Set<Seq<u8>> {
        Set::new(|r: Seq<u8>| exists|i: int| 0 <= i < self.rooms@.len() && self.rooms@[i]@ == r)
    }
}

impl JoinedRooms {
    #[verifier::type_invariant]
    spec fn each_once(self) -> bool {
        forall|i: int, j: int|
            0 <= i < j < self.rooms@.len() ==> self.rooms@[i]@ != self.rooms@[j]@
    }

    /// No rooms.
    pub fn new() -> (rooms: JoinedRooms)
        ensures
            rooms@ == Set::<Seq<u8>>::empty(),
    {
        let rooms = JoinedRooms { rooms: Vec::new() };
        assert(rooms@ =~= Set::<Seq<u8>>::empty());
        rooms
    }

    fn position(&self, room: &RoomId) -> (res: Option<usize>)
        ensures
            match res {
                Some(i) => i < self.rooms@.len() && self.rooms@[i as int]@ == room@,
                None => !self@.contains(room@),
            },
    {
        let mut i: usize = 0;
        while i < self.rooms.len()
            invariant
                i <= self.rooms@.len(),
                forall|j: int| 0 <= j < i ==> self.rooms@[j]@ != room@,
            decreases self.rooms.len() - i,
        {
            if self.rooms[i].same_as(room) {
                return Some(i);
            }
            i = i + 1;
        }
        None
    }

    /// Whether the room has been joined.
    pub fn contains(&self, room: &RoomId) -> (res: bool)
        ensures
            res == self@.contains(room@),
    {
        match self.position(room) {
            Some(i) => {
                assert(self@.contains(room@));
                true
            },
            None => false,
        }
    }

    /// Records the room as joined.
    pub fn insert(&mut self, room: RoomId)
        ensures
            final(self)@ == old(self)@.insert(room@),
    {
        proof {
            use_type_invariant(&*self);
        }
        if self.position(&room).is_none() {
            let ghost before = self.rooms@;
            let mut rooms = Vec::new();
            std::mem::swap(&mut rooms, &mut self.rooms);
            rooms.push(room);
            proof {
                assert forall|i: int, j: int| 0 <= i < j < rooms@.len() implies rooms@[i]@ != rooms@[j]@ by {
                    if j == before.len() {
                        assert(old(self)@.contains(before[i]@));
                    }
                }
            }
            self.rooms = rooms;
            proof {
                assert(self.rooms@ == before.push(room));
                assert forall|r: Seq<u8>| #[trigger] self@.contains(r) == old(self)@.insert(room@).contains(r) by {
                    if old(self)@.contains(r) {
                        let i = choose|i: int| 0 <= i < before.len() && before[i]@ == r;
                        assert(self.rooms@[i]@ == r);
                    }
                    if r == room@ {
                        assert(self.rooms@[before.len() as int]@ == r);
                    }
                    if self@.contains(r) {
                        let i = choose|i: int| 0 <= i < self.rooms@.len() && self.rooms@[i]@ == r;
                        if i < before.len() {
                            assert(old(self)@.contains(r));
                        }
                    }
                }
                assert(self@ =~= old(self)@.insert(room@));
            }
        } else {
            assert(self@ =~= old(self)@.insert(room@));
        }
    }

    /// Forgets the room; whether it had been joined.
    pub fn remove(&mut self, room: &RoomId) -> (was_joined: bool)
        ensures
            was_joined == old(self)@.contains(room@),
            final(self)@ == old(self)@.remove(room@),
    {
        proof {
            use_type_invariant(&*self);
        }
        match self.position(room) {
            Some(k) => {
                let ghost before = self.rooms@;
                let mut rooms = Vec::new();
                std::mem::swap(&mut rooms, &mut self.rooms);
                rooms.remove(k);
                proof {
                    assert forall|i: int, j: int| 0 <= i < j < rooms@.len() implies rooms@[i]@ != rooms@[j]@ by {
                        let bi = if i < k { i } else { i + 1 };
                        let bj = if j < k { j } else { j + 1 };
                        assert(rooms@[i] == before[bi]);
                        assert(rooms@[j] == before[bj]);
                    }
                }
                self.rooms = rooms;
                proof {
                    assert(self.rooms@ == before.remove(k as int));
                    assert(old(self)@.contains(room@));
                    assert forall|r: Seq<u8>| #[trigger] self@.contains(r) == old(self)@.remove(room@).contains(r) by {
                        if self@.contains(r) {
                            let i = choose|i: int| 0 <= i < self.rooms@.len() && self.rooms@[i]@ == r;
                            if i < k {
                                assert(before[i]@ == r);
                            } else {
                                assert(before[i + 1]@ == r);
                            }
                        }
                        if old(self)@.contains(r) && r != room@ {
                            let i = choose|i: int| 0 <= i < before.len() && before[i]@ == r;
                            if i < k {
                                assert(self.rooms@[i]@ == r);
                            } else {
                                assert(i != k);
                                assert(self.rooms@[i - 1]@ == r);
                            }
                        }
                    }
                    assert(self@ =~= old(self)@.remove(room@));
                }
                true
            },
            None => {
                assert(self@ =~= old(self)@.remove(room@));
                false
            },
        }
    }

    /// The joined room whose topic is `topic`, if one is.
    pub fn room_for_topic(&self, topic: &str) -> (res: Option<RoomId>)
        ensures
            match res {
                Some(r) => topic_owner(self@, topic@) == Some(r@),
                None => topic_owner(self@, topic@) is None,
            },
    {
        let wanted = topic.to_owned();
        let mut i: usize = 0;
        while i < self.rooms.len()
            invariant
                i <= self.rooms@.len(),
                wanted@ == topic@,
                forall|j: int| 0 <= j < i ==> room_topic(#[trigger] self.rooms@[j]@) != topic@,
            decreases self.rooms.len() - i,
        {
            let name = self.rooms[i].as_str();
            if name.eq(&wanted) {
                proof {
                    assert(self@.contains(self.rooms@[i as int]@));
                    lemma_topic_owner_of_member(self@, self.rooms@[i as int]@);
                }
                return Some(self.rooms[i]);
            }
            i = i + 1;
        }
        proof {
            if exists|r: Seq<u8>| self@.contains(r) && room_topic(r) == topic@ {
                let r = choose|r: Seq<u8>| self@.contains(r) && room_topic(r) == topic@;
                let j = choose|j: int| 0 <= j < self.rooms@.len() && self.rooms@[j]@ == r;
                assert(room_topic(self.rooms@[j]@) != topic@);
            }
        }
        None
    }
}

/// What the event loop is to do for a command.
#[derive(Debug)]
pub enum CommandPlan {
    /// Leave the loop.
    Stop,
    /// Subscribe to the room's topic; on success report through `finish_join`.
    Subscribe { room: RoomId, topic: String },
    /// Unsubscribe from the room's topic; report through `finish_leave`.
    Unsubscribe { room: RoomId, topic: String },
    /// Publish `data` on `topic`, then show the message locally as sent by `from`.
    Publish { topic: String, data: Vec<u8>, room: RoomId, from: PeerId, message: Vec<String> },
    /// Send the request to the peer.
    SendRequest { peer: PeerId, request: QalamDirectRequest },
}

/// Why a message that arrived on a topic could not be read.
#[derive(Debug, Clone, Copy, PartialEq, Eq)]
pub enum GossipError {
    /// The message is not valid UTF-8.
    InvalidUtf8,
}

/// The lines a peer reads from a published message: its UTF-8 text split into
/// lines, or `None` when the bytes are not UTF-8.
pub open spec fn received_lines(data: Seq<u8>) -> Option<Seq<Seq<char>>> {
    if valid_utf8(data) {
        Some(split_lines(decode_utf8(data)))
    } else {
        None
    }
}

/// The bytes published for a message of these lines.
pub open spec fn published_data(lines: Seq<Seq<char>>) -> Seq<u8> {
    encode_utf8(join_lines(lines, crlf()))
}

/// Peers read the lines of a published message back as they were sent, provided
/// none holds a line feed and the last one is not empty.
pub proof fn lemma_published_lines_received(lines: Seq<Seq<char>>)
    requires
        transmittable(lines),
    ensures
        received_lines(published_data(lines)) == Some(lines),
{
    let text = join_lines(lines, crlf());
    vstd::utf8::encode_utf8_valid_utf8(text);
    vstd::utf8::encode_utf8_decode_utf8(text);
    lemma_lines_roundtrip(lines);
}

/// The state the network event loop decides by: who this peer is and which rooms
/// it has joined.
#[derive(Debug)]
pub struct QalamCore {
    persona: String,
    local_peer_id: PeerId,
    rooms: JoinedRooms,
    message_ids: uuid::ContextV7,
}

impl QalamCore {
    /// The persona this peer goes by.
    pub closed spec fn persona_text(&self) -> Seq<char> {
        self.persona@
    }

    /// This peer's identity.
    pub closed spec fn peer(&self) -> Seq<u8> {
        self.local_peer_id@
    }

    /// The rooms joined.
    pub closed spec fn joined(&self) -> Set<Seq<u8>> {
        self.rooms@
    }

    /// A peer with this persona and identity that has joined no room.
    pub fn new(persona: String, local_peer_id: PeerId) -> (core: QalamCore)
        ensures
            core.persona_text() == persona@,
            core.peer() == local_peer_id@,
            core.joined() == Set::<Seq<u8>>::empty(),
    {
        QalamCore { persona, local_peer_id, rooms: JoinedRooms::new(), message_ids: new_id_context() }
    }

    /// This peer's identity.
    pub fn local_peer_id(&self) -> (id: PeerId)
        ensures
            id@ == self.peer(),
    {
        self.local_peer_id.clone()
    }

    /// A message from `from` with the lines `content`, stamped with `ts` and a fresh
    /// version-7 id that uuid makes from `ts`'s seconds and nanoseconds through this
    /// peer's id context.
    pub fn stamp_message(&self, from: PeerId, content: Vec<String>, ts: QalamTime) -> (m: ChatMessage)
        ensures
            m.from == from,
            m.content == content,
            m.ts == ts,
            is_uuid_v7(m.id),
    {
        let (seconds, subsec_nanos) = ts.unix_parts();
        let id = new_message_id(&self.message_ids, seconds, subsec_nanos);
        ChatMessage { id, from, content, ts }
    }

    /// A message from `from` with the lines `content`, stamped through `stamp_message`
    /// with the time read from the system clock; fails when the clock cannot be read.
    /// Its time is the whole milliseconds of the clock's duration since the epoch, as
    /// `QalamTime::now` states it.
    pub fn new_chat_message(&self, from: PeerId, content: Vec<String>) -> (res: Result<ChatMessage, ClockError>)
        ensures
            res matches Ok(m) ==> m.from == from && m.content == content && is_uuid_v7(m.id),
            res matches Ok(m) ==> exists|d: Duration| #[trigger] duration_millis(d) == m.ts.millis() as u128,
            res matches Err(e) ==> (e == ClockError::BeforeUnixEpoch || (e == ClockError::MillisOverflow
                && exists|d: Duration| #[trigger] duration_millis(d) > u64::MAX)),
    {
        match QalamTime::now() {
            Ok(ts) => Ok(self.stamp_message(from, content, ts)),
            Err(e) => Err(e),
        }
    }

    /// Whether the room has been joined.
    pub fn has_joined(&self, room: &RoomId) -> (res: bool)
        ensures
            res == self.joined().contains(room@),
    {
        self.rooms.contains(room)
    }

    /// What to do for a command. Joining a room subscribes to the topic of the
    /// room named so; sending a message publishes its lines joined with `\r\n`,
    /// as UTF-8.
    pub fn plan_command(&self, cmd: QalamCommand) -> (plan: CommandPlan)
        ensures
            match cmd {
                QalamCommand::Shutdown => plan is Stop,
                QalamCommand::JoinRoom { name } => (plan matches CommandPlan::Subscribe { room, topic }
                    && room@ == sha256_digest(room_preimage(name@))
                    && topic@ == room_topic(room@)),
                QalamCommand::LeaveRoom { room } => (plan matches CommandPlan::Unsubscribe { room: r, topic }
                    && r == room && topic@ == room_topic(room@)),
                QalamCommand::SendRoomMessage { room, from, message } => (plan matches CommandPlan::Publish {
                    topic,
                    data,
                    room: r,
                    from: f,
                    message: m,
                } && r == room && f == from && m == message && topic@ == room_topic(room@)
                    && data@ == published_data(texts(message@))),
                QalamCommand::RequestPersona { peer } => (plan matches CommandPlan::SendRequest { peer: p, request }
                    && p == peer && request == QalamDirectRequest::Persona),
            },
    {
        match cmd {
            QalamCommand::Shutdown => CommandPlan::Stop,
            QalamCommand::JoinRoom { name } => {
                let room = RoomId::room(name.as_str());
                let topic = room.as_str();
                CommandPlan::Subscribe { room, topic }
            },
            QalamCommand::LeaveRoom { room } => {
                let topic = room.as_str();
                CommandPlan::Unsubscribe { room, topic }
            },
            QalamCommand::SendRoomMessage { room, from, message } => {
                let topic = room.as_str();
                let joined = join_crlf(&message);
                let data = joined.as_str().as_bytes_vec();
                CommandPlan::Publish { topic, data, room, from, message }
            },
            QalamCommand::RequestPersona { peer } => CommandPlan::SendRequest {
                peer,
                request: QalamDirectRequest::Persona,
            },
        }
    }

    /// After subscribing to a room's topic was tried: when it worked, the room is
    /// joined and reported; when it failed, nothing changes.
    pub fn finish_join(&mut self, room: RoomId, subscribed: bool) -> (event: Option<QalamEvent>)
        ensures
            subscribed ==> final(self).joined() == old(self).joined().insert(room@),
            subscribed ==> event == Some(QalamEvent::RoomJoined { room }),
            !subscribed ==> final(self).joined() == old(self).joined() && event is None,
            final(self).persona_text() == old(self).persona_text(),
            final(self).peer() == old(self).peer(),
    {
        if subscribed {
            self.rooms.insert(room);
            Some(QalamEvent::RoomJoined { room })
        } else {
            None
        }
    }

    /// After unsubscribing from a room's topic was tried: when it worked, the room
    /// is forgotten and reported, together with whether it had been joined; when it
    /// failed, nothing changes.
    pub fn finish_leave(&mut self, room: RoomId, unsubscribed: bool) -> (res: Option<(QalamEvent, bool)>)
        ensures
            unsubscribed ==> final(self).joined() == old(self).joined().remove(room@),
            unsubscribed ==> res == Some((QalamEvent::RoomLeft { room }, old(self).joined().contains(room@))),
            !unsubscribed ==> final(self).joined() == old(self).joined() && res is None,
            final(self).persona_text() == old(self).persona_text(),
            final(self).peer() == old(self).peer(),
    {
        if unsubscribed {
            let was_joined = self.rooms.remove(&room);
            Some((QalamEvent::RoomLeft { room }, was_joined))
        } else {
            None
        }
    }

    /// A message that arrived on a topic: an error when it is not UTF-8; otherwise
    /// the joined room whose topic it is, with the message's lines, or nothing when
    /// no joined room has that topic.
    pub fn deliver_gossip(&self, topic: &str, data: Vec<u8>) -> (res: Result<Option<(RoomId, Vec<String>)>, GossipError>)
        ensures
            received_lines(data@) is None ==> res == Err::<Option<(RoomId, Vec<String>)>, GossipError>(GossipError::InvalidUtf8),
            received_lines(data@) matches Some(lines) ==> (res matches Ok(delivery) && match topic_owner(self.joined(), topic@) {
                None => delivery is None,
                Some(owner) => (delivery matches Some((room, got)) && room@ == owner && texts(got@) == lines),
            }),
    {
        let content = match utf8_to_string(data) {
            Some(s) => s,
            None => {
                return Err(GossipError::InvalidUtf8);
            },
        };
        match self.rooms.room_for_topic(topic) {
            Some(room) => Ok(Some((room, split_lines_of(content.as_str())))),
            None => Ok(None),
        }
    }

    /// The answer to a direct request: a pong to a ping, this peer's identity and
    /// persona to a persona request.
    pub fn handle_direct_request(&self, request: QalamDirectRequest) -> (response: QalamDirectResponse)
        ensures
            request == QalamDirectRequest::Ping ==> response@ == crate::direct::DirectResponseView::Pong,
            request == QalamDirectRequest::Persona ==> response@ == (crate::direct::DirectResponseView::Persona {
                peer: self.peer(),
                ident: self.persona_text(),
            }),
    {
        match request {
            QalamDirectRequest::Ping => QalamDirectResponse::Pong,
            QalamDirectRequest::Persona => QalamDirectResponse::Persona {
                peer: self.local_peer_id.clone(),
                ident: self.persona.clone(),
            },
        }
    }

    /// What an answer to a request of ours tells the user: a persona is reported,
    /// a pong is not.
    pub fn handle_direct_response(&self, response: QalamDirectResponse) -> (event: Option<QalamEvent>)
        ensures
            match response {
                QalamDirectResponse::Pong => event is None,
                QalamDirectResponse::Persona { peer, ident } => event == Some(QalamEvent::PersonaReceived {
                    peer,
                    persona: ident,
                }),
            },
    {
        match response {
            QalamDirectResponse::Pong => None,
            QalamDirectResponse::Persona { peer, ident } => Some(QalamEvent::PersonaReceived { peer, persona: ident }),
        }
    }
}

} // verus!
