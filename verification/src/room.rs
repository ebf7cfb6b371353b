//! The per-room session: the member roster, the append-only message log, and
//! the room's identity (a rendezvous URL derived from the percent-encoded
//! room name).

use vstd::prelude::*;
use vstd::string::StringExecFns;
use vstd::string::StrSliceExecFns;
use vstd::string::StringSliceAdditionalSpecFns;
use vstd::utf8::encode_utf8;
use crate::sentinel;
use crate::sentinel_text;
use crate::trusted::encoded;
use crate::trusted::lossy_decoded;
use crate::trusted::encode_room_name;
use crate::trusted::decode_lossy;
use crate::trusted::random_below;
use crate::trusted::now_string;

verus! {

/// Number of display colors in the fixed palette a member's color is drawn
/// from.
pub const PALETTE_SIZE: usize = 10;

/// The reserved identifier of the local user, pre-seeded into every room's
/// roster at creation.
pub open spec fn local_user() -> Seq<char> {
    "You"@
}

/// Exec twin of [`local_user`].
pub fn local_user_id() -> (r: String)
    ensures
        r@ == local_user(),
{
    "You".to_owned()
}

/// The rendezvous base address; a room's URL is this followed by the
/// percent-encoded room name.
pub open spec fn host() -> Seq<char> {
    "ws://127.0.0.1:3536/"@
}

/// The canonical rendezvous URL derived from a raw room name. Two sessions
/// are the same room iff their URLs are equal.
pub open spec fn url_of(name: Seq<char>) -> Seq<char> {
    host() + encoded(name)
}

/// A known participant of a room: a stable identifier and a display color,
/// drawn once at first sight and fixed for the member's lifetime.
pub struct Member {
    pub id: String,
    pub color: usize,
}

/// Mathematical model of a [`Member`].
#[verifier::ext_equal]
pub struct MemberV {
    pub id: Seq<char>,
    pub color: int,
}

impl Member {
    /// A member first seen under `id`: the display color is drawn once,
    /// uniformly at random from the fixed palette, and kept for the member's
    /// lifetime within the room.
    pub fn new(id: String) -> (r: Member)
        ensures
            r@.id == id@,
            0 <= r@.color < PALETTE_SIZE,
    {
        let color = random_below(PALETTE_SIZE);
        Member { id, color }
    }
}

impl View for Member {
    type V = MemberV;

    open spec fn view(&self) -> MemberV {
        MemberV { id: self.id@, color: self.color as int }
    }
}

impl DeepView for Member {
    type V = MemberV;

    open spec fn deep_view(&self) -> MemberV {
        self.view()
    }
}

/// One chat entry: who said it, what was said, and the timestamp captured
/// when the entry was accepted.
pub struct Message {
    pub member_id: String,
    pub content: String,
    pub date: String,
}

/// Mathematical model of a [`Message`].
#[verifier::ext_equal]
pub struct MessageV {
    pub member_id: Seq<char>,
    pub content: Seq<char>,
    pub date: Seq<char>,
}

impl View for Message {
    type V = MessageV;

    open spec fn view(&self) -> MessageV {
        MessageV { member_id: self.member_id@, content: self.content@, date: self.date@ }
    }
}

impl DeepView for Message {
    type V = MessageV;

    open spec fn deep_view(&self) -> MessageV {
        self.view()
    }
}

/// One session: identity, exclusive-focus flag, roster and log. The
/// transport handle bound to `room_url` lives outside the verified core; the
/// session receives that transport's events and packets as plain values.
pub struct Room {
    pub is_window_open: bool,
    pub room_url: String,
    pub name: String,
    pub members: Vec<Member>,
    pub messages: Vec<Message>,
}

/// Mathematical model of a [`Room`].
#[verifier::ext_equal]
pub struct RoomV {
    pub active: bool,
    pub url: Seq<char>,
    pub name: Seq<char>,
    pub members: Seq<MemberV>,
    pub messages: Seq<MessageV>,
}

impl View for Room {
    type V = RoomV;

    open spec fn view(&self) -> RoomV {
        RoomV {
            active: self.is_window_open,
            url: self.room_url@,
            name: self.name@,
            members: self.members.deep_view(),
            messages: self.messages.deep_view(),
        }
    }
}

impl DeepView for Room {
    type V = RoomV;

    open spec fn deep_view(&self) -> RoomV {
        self.view()
    }
}

/// Well-formedness of a room: the local user is pre-seeded as the first
/// member, member identifiers are unique, every color lies in the palette,
/// and the URL is the host followed by the encoded name.
pub open spec fn room_wf(r: RoomV) -> bool {
    &&& r.members.len() >= 1
    &&& r.members[0].id == local_user()
    &&& forall|i: int, j: int|
        0 <= i < j < r.members.len() ==> (#[trigger] r.members[i]).id != (#[trigger] r.members[j]).id
    &&& forall|i: int| 0 <= i < r.members.len() ==> 0 <= (#[trigger] r.members[i]).color < PALETTE_SIZE
    &&& r.url == host() + r.name
}

impl Room {
    /// Opens a fresh session for `raw_name`: derives the URL from the
    /// percent-encoded name, seeds the roster with the local user (with a
    /// freshly drawn color), and starts with an empty log, focused.
    pub fn new(raw_name: &str) -> (r: Room)
        ensures
            room_wf(r@),
            r@.active,
            r@.name == encoded(raw_name@),
            r@.url == url_of(raw_name@),
            r@.messages =~= Seq::<MessageV>::empty(),
            r@.members.len() == 1,
            r@.members[0].id == local_user(),
    {
        let name = encode_room_name(raw_name);
        let mut room_url: String = "ws://127.0.0.1:3536/".to_owned();
        room_url.append(name.as_str());
        let local = Member::new(local_user_id());
        let ghost color = local@.color;
        let members = vec![local];
        let room = Room {
            is_window_open: true,
            room_url,
            name,
            members,
            messages: Vec::new(),
        };
        proof {
            assert(room@.members =~= seq![MemberV { id: local_user(), color }]);
            assert(room@.messages =~= Seq::<MessageV>::empty());
        }
        room
    }
}

/// What the transport reports of a peer: it connected, or it disconnected.
#[derive(Clone, Copy)]
pub enum PeerState {
    Connected,
    Disconnected,
}

/// One connect/disconnect notification from the transport.
pub struct PeerEvent {
    pub peer: String,
    pub state: PeerState,
}

/// Mathematical model of a [`PeerEvent`].
#[verifier::ext_equal]
pub struct PeerEventV {
    pub peer: Seq<char>,
    pub connected: bool,
}

impl View for PeerEvent {
    type V = PeerEventV;

    open spec fn view(&self) -> PeerEventV {
        PeerEventV { peer: self.peer@, connected: self.state is Connected }
    }
}

impl DeepView for PeerEvent {
    type V = PeerEventV;

    open spec fn deep_view(&self) -> PeerEventV {
        self.view()
    }
}

/// One inbound data-channel packet: the transport-assigned sender and the
/// raw bytes.
pub struct Packet {
    pub peer: String,
    pub data: Vec<u8>,
}

/// Mathematical model of a [`Packet`].
#[verifier::ext_equal]
pub struct PacketV {
    pub peer: Seq<char>,
    pub data: Seq<u8>,
}

impl View for Packet {
    type V = PacketV;

    open spec fn view(&self) -> PacketV {
        PacketV { peer: self.peer@, data: self.data@ }
    }
}

impl DeepView for Packet {
    type V = PacketV;

    open spec fn deep_view(&self) -> PacketV {
        self.view()
    }
}

/// One send the core asks the transport to perform: a payload for one peer.
pub struct Outbound {
    pub peer: String,
    pub payload: Vec<u8>,
}

/// Mathematical model of an [`Outbound`].
#[verifier::ext_equal]
pub struct OutboundV {
    pub peer: Seq<char>,
    pub payload: Seq<u8>,
}

impl View for Outbound {
    type V = OutboundV;

    open spec fn view(&self) -> OutboundV {
        OutboundV { peer: self.peer@, payload: self.payload@ }
    }
}

impl DeepView for Outbound {
    type V = OutboundV;

    open spec fn deep_view(&self) -> OutboundV {
        self.view()
    }
}

/// The UTF-8 bytes of the greeting sentinel, as sent on the wire.
pub open spec fn sentinel_bytes() -> Seq<u8> {
    encode_utf8(sentinel())
}

/// The greeting send owed to a newly connected peer.
pub open spec fn greeting_to(peer: Seq<char>) -> OutboundV {
    OutboundV { peer, payload: sentinel_bytes() }
}

/// The sends the peer lifecycle handler performs for a batch of transport
/// events: one greeting to each peer that connected, in event order; a
/// disconnect asks for nothing.
pub open spec fn greetings(evs: Seq<PeerEventV>) -> Seq<OutboundV>
    decreases evs.len(),
{
    if evs.len() == 0 {
        Seq::empty()
    } else {
        let head: Seq<OutboundV> = if evs[0].connected {
            seq![greeting_to(evs[0].peer)]
        } else {
            Seq::empty()
        };
        head + greetings(evs.drop_first())
    }
}

/// Extending an event batch by one event extends its greetings accordingly.
pub proof fn lemma_greetings_push(evs: Seq<PeerEventV>, e: PeerEventV)
    ensures
        greetings(evs.push(e)) == if e.connected {
            greetings(evs).push(greeting_to(e.peer))
        } else {
            greetings(evs)
        },
    decreases evs.len(),
{
    if evs.len() == 0 {
        assert(evs.push(e).drop_first() =~= evs);
        if e.connected {
            assert(greetings(evs.push(e)) =~= greetings(evs).push(greeting_to(e.peer)));
        } else {
            assert(greetings(evs.push(e)) =~= greetings(evs));
        }
    } else {
        assert(evs.push(e).drop_first() =~= evs.drop_first().push(e));
        lemma_greetings_push(evs.drop_first(), e);
        if e.connected {
            assert(greetings(evs.push(e)) =~= greetings(evs).push(greeting_to(e.peer)));
        } else {
            assert(greetings(evs.push(e)) =~= greetings(evs));
        }
    }
}

/// The identifiers of a roster, in roster order.
pub open spec fn ids_of(ms: Seq<MemberV>) -> Seq<Seq<char>> {
    ms.map_values(|m: MemberV| m.id)
}

/// Roster update for one packet: an unseen sender is appended, a known one
/// changes nothing.
pub open spec fn roster_add(ids: Seq<Seq<char>>, peer: Seq<char>) -> Seq<Seq<char>> {
    if ids.contains(peer) {
        ids
    } else {
        ids.push(peer)
    }
}

/// Roster identifiers after ingesting a batch of packets, in batch order;
/// the membership check runs per packet against the up-to-date roster, so a
/// peer is added at most once.
pub open spec fn ingest_ids(ids: Seq<Seq<char>>, pkts: Seq<PacketV>) -> Seq<Seq<char>>
    decreases pkts.len(),
{
    if pkts.len() == 0 {
        ids
    } else {
        ingest_ids(roster_add(ids, pkts[0].peer), pkts.drop_first())
    }
}

/// Extending a packet batch by one packet updates the ingested roster by one
/// [`roster_add`] step.
pub proof fn lemma_ingest_ids_push(ids: Seq<Seq<char>>, pkts: Seq<PacketV>, p: PacketV)
    ensures
        ingest_ids(ids, pkts.push(p)) == roster_add(ingest_ids(ids, pkts), p.peer),
    decreases pkts.len(),
{
    let s = pkts.push(p);
    assert(ingest_ids(ids, s) == ingest_ids(roster_add(ids, s[0].peer), s.drop_first()));
    if pkts.len() == 0 {
        assert(s[0] == p);
        assert(s.drop_first() =~= pkts);
        assert(ingest_ids(roster_add(ids, p.peer), pkts) == roster_add(ids, p.peer));
        assert(ingest_ids(ids, pkts) == ids);
    } else {
        assert(s[0] == pkts[0]);
        assert(s.drop_first() =~= pkts.drop_first().push(p));
        lemma_ingest_ids_push(roster_add(ids, pkts[0].peer), pkts.drop_first(), p);
        assert(ingest_ids(ids, pkts) == ingest_ids(roster_add(ids, pkts[0].peer), pkts.drop_first()));
    }
}

/// Whether a packet carries the reserved greeting sentinel (after lossy
/// decoding), and is therefore kept out of the message log.
pub open spec fn is_greeting(p: PacketV) -> bool {
    lossy_decoded(p.data) == sentinel()
}

/// The chat entry a non-greeting packet turns into, under the batch-capture
/// timestamp.
pub open spec fn chat_message(p: PacketV, date: Seq<char>) -> MessageV {
    MessageV { member_id: p.peer, content: lossy_decoded(p.data), date }
}

/// The message log after ingesting a batch of packets: each non-greeting
/// packet appends exactly one entry, in batch order; greeting packets are
/// discarded.
pub open spec fn ingest_msgs(msgs: Seq<MessageV>, pkts: Seq<PacketV>, date: Seq<char>) -> Seq<
    MessageV,
>
    decreases pkts.len(),
{
    if pkts.len() == 0 {
        msgs
    } else if is_greeting(pkts[0]) {
        ingest_msgs(msgs, pkts.drop_first(), date)
    } else {
        ingest_msgs(msgs.push(chat_message(pkts[0], date)), pkts.drop_first(), date)
    }
}

/// Extending a packet batch by one packet appends at most that packet's
/// entry to the ingested log.
pub proof fn lemma_ingest_msgs_push(
    msgs: Seq<MessageV>,
    pkts: Seq<PacketV>,
    date: Seq<char>,
    p: PacketV,
)
    ensures
        ingest_msgs(msgs, pkts.push(p), date) == if is_greeting(p) {
            ingest_msgs(msgs, pkts, date)
        } else {
            ingest_msgs(msgs, pkts, date).push(chat_message(p, date))
        },
    decreases pkts.len(),
{
    let s = pkts.push(p);
    if pkts.len() == 0 {
        assert(s[0] == p);
        assert(s.drop_first() =~= pkts);
        if is_greeting(p) {
            assert(ingest_msgs(msgs, s, date) == ingest_msgs(msgs, s.drop_first(), date));
        } else {
            assert(ingest_msgs(msgs, s, date) == ingest_msgs(
                msgs.push(chat_message(p, date)),
                s.drop_first(),
                date,
            ));
            assert(ingest_msgs(msgs.push(chat_message(p, date)), pkts, date) == msgs.push(
                chat_message(p, date),
            ));
        }
        assert(ingest_msgs(msgs, pkts, date) == msgs);
    } else {
        assert(s[0] == pkts[0]);
        assert(s.drop_first() =~= pkts.drop_first().push(p));
        if is_greeting(pkts[0]) {
            assert(ingest_msgs(msgs, s, date) == ingest_msgs(msgs, s.drop_first(), date));
            lemma_ingest_msgs_push(msgs, pkts.drop_first(), date, p);
            assert(ingest_msgs(msgs, pkts, date) == ingest_msgs(msgs, pkts.drop_first(), date));
        } else {
            assert(ingest_msgs(msgs, s, date) == ingest_msgs(
                msgs.push(chat_message(pkts[0], date)),
                s.drop_first(),
                date,
            ));
            lemma_ingest_msgs_push(msgs.push(chat_message(pkts[0], date)), pkts.drop_first(), date, p);
            assert(ingest_msgs(msgs, pkts, date) == ingest_msgs(
                msgs.push(chat_message(pkts[0], date)),
                pkts.drop_first(),
                date,
            ));
        }
    }
}

impl Room {
    /// The peer lifecycle handler: for each event of one tick's batch, a
    /// connect is answered with the greeting sentinel to that peer only, and
    /// a disconnect changes nothing. The session itself is untouched: no
    /// roster entry is removed and no log entry is made.
    pub fn handle_peer_events(&self, events: &Vec<PeerEvent>) -> (out: Vec<Outbound>)
        ensures
            out.deep_view() == greetings(events.deep_view()),
    {
        let greet_text = sentinel_text();
        let greet: Vec<u8> = greet_text.as_str().as_bytes_vec();
        let mut out: Vec<Outbound> = Vec::new();
        let mut i: usize = 0;
        while i < events.len()
            invariant
                i <= events.len(),
                greet@ == sentinel_bytes(),
                out.deep_view() =~= greetings(events.deep_view().take(i as int)),
            decreases events.len() - i,
        {
            match events[i].state {
                PeerState::Connected => {
                    out.push(Outbound { peer: events[i].peer.clone(), payload: greet.clone() });
                },
                PeerState::Disconnected => {},
            }
            proof {
                let evs = events.deep_view();
                lemma_greetings_push(evs.take(i as int), evs[i as int]);
                assert(evs.take(i + 1) =~= evs.take(i as int).push(evs[i as int]));
            }
            i += 1;
        }
        proof {
            assert(events.deep_view().take(events.len() as int) =~= events.deep_view());
        }
        out
    }

    /// The packet ingestor, under a given batch-capture timestamp: drains
    /// one tick's batch in order. Each packet's sender is added to the
    /// roster (with a freshly drawn color) if unseen — greeting packets
    /// included — and each non-greeting packet appends exactly one log
    /// entry; greeting packets are kept out of the log. Existing members,
    /// their colors, and the session identity are untouched.
    pub fn accept_messages_at(&mut self, packets: &Vec<Packet>, date: &str)
        requires
            room_wf(old(self)@),
        ensures
            room_wf(final(self)@),
            final(self)@.active == old(self)@.active,
            final(self)@.url == old(self)@.url,
            final(self)@.name == old(self)@.name,
            final(self)@.messages == ingest_msgs(old(self)@.messages, packets.deep_view(), date@),
            ids_of(final(self)@.members) == ingest_ids(
                ids_of(old(self)@.members),
                packets.deep_view(),
            ),
            old(self)@.members.is_prefix_of(final(self)@.members),
    {
        let greet = sentinel_text();
        let mut i: usize = 0;
        proof {
            assert(self@.members =~= self@.members.subrange(0, self@.members.len() as int));
        }
        #[verifier::loop_isolation(false)]
        while i < packets.len()
            invariant
                i <= packets.len(),
                room_wf(self@),
                self@.active == old(self)@.active,
                self@.url == old(self)@.url,
                self@.name == old(self)@.name,
                self@.messages =~= ingest_msgs(
                    old(self)@.messages,
                    packets.deep_view().take(i as int),
                    date@,
                ),
                ids_of(self@.members) =~= ingest_ids(
                    ids_of(old(self)@.members),
                    packets.deep_view().take(i as int),
                ),
                old(self)@.members.is_prefix_of(self@.members),
            decreases packets.len() - i,
        {
            let ghost pre = self@;
            let pkt = &packets[i];
            let content = decode_lossy(&pkt.data);

            let mut known = false;
            let mut k: usize = 0;
            #[verifier::loop_isolation(false)]
            while k < self.members.len()
                invariant
                    k <= self.members.len(),
                    self@ == pre,
                    known <==> exists|j: int|
                        0 <= j < k && (#[trigger] self@.members[j]).id == pkt.peer@,
                decreases self.members.len() - k,
            {
                let hit = self.members[k].id == pkt.peer;
                if hit {
                    known = true;
                    proof {
                        assert((#[trigger] self@.members[k as int]).id == pkt.peer@);
                    }
                }
                k += 1;
            }
            proof {
                let ms = pre.members;
                assert(ids_of(ms).len() == ms.len());
                assert(forall|j: int|
                    0 <= j < ms.len() ==> ids_of(ms)[j] == (#[trigger] ms[j]).id);
                if known {
                    let j = choose|j: int|
                        0 <= j < ms.len() && (#[trigger] ms[j]).id == pkt.peer@;
                    assert(ids_of(ms)[j] == pkt.peer@);
                    assert(ids_of(ms).contains(pkt.peer@));
                } else {
                    if ids_of(ms).contains(pkt.peer@) {
                        let j = choose|j: int|
                            0 <= j < ids_of(ms).len() && ids_of(ms)[j] == pkt.peer@;
                        assert(ms[j].id == pkt.peer@);
                        assert(false);
                    }
                    assert forall|j: int| 0 <= j < ms.len() implies (#[trigger] ms[j]).id
                        != pkt.peer@ by {
                        assert(ids_of(ms)[j] == ms[j].id);
                    }
                }
                assert(known <==> ids_of(ms).contains(pkt.peer@));
            }

            if !known {
                let fresh = Member::new(pkt.peer.clone());
                let ghost fresh_v = fresh@;
                self.members.push(fresh);
                proof {
                    assert(self@.members =~= pre.members.push(fresh_v));
                    assert(ids_of(self@.members) =~= ids_of(pre.members).push(pkt.peer@));
                    assert(old(self)@.members.is_prefix_of(self@.members));
                }
            }
            proof {
                assert(ids_of(self@.members) =~= roster_add(ids_of(pre.members), pkt.peer@));
            }

            let is_greet = content == greet;
            proof {
                assert(packets.deep_view()[i as int] == PacketV { peer: pkt.peer@, data: pkt.data@ });
                assert(is_greet == is_greeting(packets.deep_view()[i as int]));
            }
            if !is_greet {
                self.messages.push(
                    Message { member_id: pkt.peer.clone(), content, date: date.to_owned() },
                );
                proof {
                    assert(self@.messages =~= pre.messages.push(
                        chat_message(packets.deep_view()[i as int], date@),
                    ));
                }
            }

            proof {
                let pkts = packets.deep_view();
                lemma_ingest_ids_push(ids_of(old(self)@.members), pkts.take(i as int), pkts[i as int]);
                lemma_ingest_msgs_push(
                    old(self)@.messages,
                    pkts.take(i as int),
                    date@,
                    pkts[i as int],
                );
                assert(pkts.take(i + 1) =~= pkts.take(i as int).push(pkts[i as int]));
            }
            i += 1;
        }
        proof {
            assert(packets.deep_view().take(packets.len() as int) =~= packets.deep_view());
        }
    }

    /// The packet ingestor under the wall clock: captures one timestamp for
    /// the whole batch, then ingests as [`Room::accept_messages_at`] — so
    /// some single timestamp is shared by every entry the batch appends.
    pub fn accept_messages(&mut self, packets: &Vec<Packet>)
        requires
            room_wf(old(self)@),
        ensures
            room_wf(final(self)@),
            final(self)@.active == old(self)@.active,
            final(self)@.url == old(self)@.url,
            final(self)@.name == old(self)@.name,
            exists|date: Seq<char>|
                final(self)@.messages == ingest_msgs(old(self)@.messages, packets.deep_view(), date),
            ids_of(final(self)@.members) == ingest_ids(
                ids_of(old(self)@.members),
                packets.deep_view(),
            ),
            old(self)@.members.is_prefix_of(final(self)@.members),
    {
        let date = now_string();
        self.accept_messages_at(packets, date.as_str());
    }

    /// The broadcaster, under a given submission timestamp: appends the
    /// locally authored message to the log (optimistic local echo, before any
    /// network confirmation) and returns one independent copy of the payload
    /// for every peer of the connected-peers snapshot, in snapshot order.
    /// Empty text is a no-op: no log entry and no sends.
    pub fn send_at(&mut self, content: &str, date: &str, connected: &Vec<String>) -> (out: Vec<
        Outbound,
    >)
        ensures
            content@.len() == 0 ==> final(self)@ == old(self)@ && out@.len() == 0,
            content@.len() > 0 ==> {
                &&& final(self)@.messages == old(self)@.messages.push(
                    MessageV { member_id: local_user(), content: content@, date: date@ },
                )
                &&& final(self)@.members == old(self)@.members
                &&& final(self)@.active == old(self)@.active
                &&& final(self)@.url == old(self)@.url
                &&& final(self)@.name == old(self)@.name
                &&& out.deep_view() == fanout(connected.deep_view(), content@)
            },
            room_wf(old(self)@) ==> room_wf(final(self)@),
    {
        if content.is_empty() {
            return Vec::new();
        }
        let payload: Vec<u8> = content.as_bytes_vec();
        proof {
            assert(payload@ == content.spec_bytes());
            assert(content.spec_bytes() == encode_utf8(content@));
        }
        let mut out: Vec<Outbound> = Vec::new();
        let mut i: usize = 0;
        #[verifier::loop_isolation(false)]
        while i < connected.len()
            invariant
                i <= connected.len(),
                out.deep_view() =~~= fanout(connected.deep_view().take(i as int), content@),
            decreases connected.len() - i,
        {
            let copy = payload.clone();
            proof {
                assert(copy@ =~= payload@);
            }
            out.push(Outbound { peer: connected[i].clone(), payload: copy });
            proof {
                let cd = connected.deep_view();
                assert(out.deep_view()[i as int] =~~= fanout(cd.take(i + 1), content@)[i as int]);
                assert forall|j: int| 0 <= j < i implies out.deep_view()[j] =~~= fanout(
                    cd.take(i + 1),
                    content@,
                )[j] by {
                    assert(out.deep_view()[j] == fanout(cd.take(i as int), content@)[j]);
                    assert(cd.take(i + 1)[j] == cd.take(i as int)[j]);
                }
                assert(out.deep_view() =~~= fanout(cd.take(i + 1), content@));
            }
            i += 1;
        }
        self.messages.push(
            Message { member_id: local_user_id(), content: content.to_owned(), date: date.to_owned() },
        );
        proof {
            assert(connected.deep_view().take(connected.len() as int) =~= connected.deep_view());
            assert(self@.messages =~= old(self)@.messages.push(
                MessageV { member_id: local_user(), content: content@, date: date@ },
            ));
        }
        out
    }

    /// The broadcaster under the wall clock: captures the submission
    /// timestamp, then sends as [`Room::send_at`]. Empty text leaves the log
    /// untouched and asks for no sends at all.
    pub fn send(&mut self, content: &str, connected: &Vec<String>) -> (out: Vec<Outbound>)
        ensures
            content@.len() == 0 ==> final(self)@ == old(self)@ && out@.len() == 0,
            content@.len() > 0 ==> {
                &&& exists|date: Seq<char>|
                    final(self)@.messages == old(self)@.messages.push(
                        MessageV { member_id: local_user(), content: content@, date },
                    )
                &&& final(self)@.members == old(self)@.members
                &&& final(self)@.active == old(self)@.active
                &&& final(self)@.url == old(self)@.url
                &&& final(self)@.name == old(self)@.name
                &&& out.deep_view() == fanout(connected.deep_view(), content@)
            },
            room_wf(old(self)@) ==> room_wf(final(self)@),
    {
        let date = now_string();
        self.send_at(content, date.as_str(), connected)
    }
}

/// The sends the broadcaster performs for one submission: an independent
/// copy of the UTF-8 payload of `content` for each peer of the snapshot, in
/// snapshot order.
pub open spec fn fanout(peers: Seq<Seq<char>>, content: Seq<char>) -> Seq<OutboundV> {
    peers.map_values(|p: Seq<char>| OutboundV { peer: p, payload: encode_utf8(content) })
}

} // verus!
