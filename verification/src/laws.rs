//! The laws of the chat core, proved once and for all over the models that
//! the executable functions are specified against.

use vstd::prelude::*;
use crate::sentinel;
use crate::room::MessageV;
use crate::room::PacketV;
use crate::room::RoomV;
use crate::room::ingest_msgs;
use crate::room::ingest_ids;
use crate::room::is_greeting;
use crate::room::chat_message;
use crate::room::roster_add;
use crate::room::url_of;
use crate::registry::has_url;
use crate::registry::focused;
use crate::registry::at_most_one_active;
use crate::trusted::encoded;

verus! {

/// Law: joining is keyed by the percent-encoding of the name. Two names
/// with the same encoding derive the same rendezvous URL, so once one of
/// them has a session, a join of the other finds that session and adds
/// none — joining the same room twice never creates two sessions (see the
/// present-URL case of `Registry::join_or_focus`).
pub proof fn lemma_join_keyed_by_encoding(rooms: Seq<RoomV>, n1: Seq<char>, n2: Seq<char>)
    requires
        encoded(n1) == encoded(n2),
        has_url(rooms, url_of(n1)),
    ensures
        url_of(n2) == url_of(n1),
        has_url(rooms, url_of(n2)),
{
}

/// Law: focusing any index leaves at most one session active, whatever the
/// flags were before — so every `join_or_focus`/`focus` call restores the
/// exclusive-focus rule on its own.
pub proof fn lemma_focus_exclusive(rooms: Seq<RoomV>, idx: int)
    ensures
        at_most_one_active(focused(rooms, idx)),
{
}

/// How many packets of a batch carry chat content rather than the greeting
/// sentinel.
pub open spec fn chat_count(pkts: Seq<PacketV>) -> int
    decreases pkts.len(),
{
    if pkts.len() == 0 {
        0
    } else {
        (if is_greeting(pkts[0]) {
            0int
        } else {
            1int
        }) + chat_count(pkts.drop_first())
    }
}

/// Law: ingesting a batch appends exactly one message per non-sentinel
/// packet — no packet is dropped and none is logged twice.
pub proof fn lemma_one_message_per_chat_packet(
    msgs: Seq<MessageV>,
    pkts: Seq<PacketV>,
    date: Seq<char>,
)
    ensures
        ingest_msgs(msgs, pkts, date).len() == msgs.len() + chat_count(pkts),
    decreases pkts.len(),
{
    if pkts.len() == 0 {
    } else if is_greeting(pkts[0]) {
        lemma_one_message_per_chat_packet(msgs, pkts.drop_first(), date);
    } else {
        lemma_one_message_per_chat_packet(
            msgs.push(chat_message(pkts[0], date)),
            pkts.drop_first(),
            date,
        );
    }
}

/// Membership in the roster survives ingesting any further packets: members
/// are never removed.
pub proof fn lemma_ingest_ids_keeps(ids: Seq<Seq<char>>, pkts: Seq<PacketV>, x: Seq<char>)
    requires
        ids.contains(x),
    ensures
        ingest_ids(ids, pkts).contains(x),
    decreases pkts.len(),
{
    if pkts.len() > 0 {
        let ids2 = roster_add(ids, pkts[0].peer);
        if !ids.contains(pkts[0].peer) {
            let w = choose|i: int| 0 <= i < ids.len() && ids[i] == x;
            assert(ids.push(pkts[0].peer)[w] == x);
        }
        lemma_ingest_ids_keeps(ids2, pkts.drop_first(), x);
    }
}

/// Law: a sending peer appears exactly once in the roster, regardless of
/// how many packets it sends — the ingested roster stays duplicate-free,
/// and it contains every peer that sent a packet of the batch. Together,
/// that is one entry per sending peer.
pub proof fn lemma_member_appears_once(ids: Seq<Seq<char>>, pkts: Seq<PacketV>, peer: Seq<char>)
    requires
        ids.no_duplicates(),
    ensures
        ingest_ids(ids, pkts).no_duplicates(),
        (exists|i: int| 0 <= i < pkts.len() && (#[trigger] pkts[i]).peer == peer)
            ==> ingest_ids(ids, pkts).contains(peer),
    decreases pkts.len(),
{
    if pkts.len() > 0 {
        let p0 = pkts[0].peer;
        let ids2 = roster_add(ids, p0);
        if !ids.contains(p0) {
            assert forall|a: int, b: int|
                0 <= a < ids2.len() && 0 <= b < ids2.len() && a != b implies ids2[a] != ids2[b] by {
                if a == ids.len() {
                    assert(ids2[a] == p0);
                    assert(ids2[b] == ids[b]);
                } else if b == ids.len() {
                    assert(ids2[b] == p0);
                    assert(ids2[a] == ids[a]);
                }
            }
        }
        assert(ids2.no_duplicates());
        lemma_member_appears_once(ids2, pkts.drop_first(), peer);

        if exists|i: int| 0 <= i < pkts.len() && (#[trigger] pkts[i]).peer == peer {
            let i = choose|i: int| 0 <= i < pkts.len() && (#[trigger] pkts[i]).peer == peer;
            if i == 0 {
                if ids.contains(p0) {
                    lemma_ingest_ids_keeps(ids2, pkts.drop_first(), peer);
                } else {
                    assert(ids2[ids.len() as int] == p0);
                    assert(ids2.contains(peer));
                    lemma_ingest_ids_keeps(ids2, pkts.drop_first(), peer);
                }
            } else {
                assert(pkts.drop_first()[i - 1] == pkts[i]);
            }
        }
    }
}

/// Law: the greeting sentinel never enters a message log through packet
/// ingestion — a log free of it stays free of it, under any batch. (Peer
/// connects and disconnects touch no log at all: the lifecycle handler
/// takes the session immutably.)
pub proof fn lemma_sentinel_never_logged(msgs: Seq<MessageV>, pkts: Seq<PacketV>, date: Seq<char>)
    requires
        forall|i: int| 0 <= i < msgs.len() ==> (#[trigger] msgs[i]).content != sentinel(),
    ensures
        forall|i: int|
            0 <= i < ingest_msgs(msgs, pkts, date).len() ==> (#[trigger] ingest_msgs(
                msgs,
                pkts,
                date,
            )[i]).content != sentinel(),
    decreases pkts.len(),
{
    if pkts.len() == 0 {
    } else if is_greeting(pkts[0]) {
        lemma_sentinel_never_logged(msgs, pkts.drop_first(), date);
        assert(ingest_msgs(msgs, pkts, date) == ingest_msgs(msgs, pkts.drop_first(), date));
    } else {
        let m2 = msgs.push(chat_message(pkts[0], date));
        assert forall|i: int| 0 <= i < m2.len() implies (#[trigger] m2[i]).content != sentinel() by {
            if i < msgs.len() {
                assert(m2[i] == msgs[i]);
            } else {
                assert(m2[i] == chat_message(pkts[0], date));
            }
        }
        lemma_sentinel_never_logged(m2, pkts.drop_first(), date);
        assert(ingest_msgs(msgs, pkts, date) == ingest_msgs(m2, pkts.drop_first(), date));
    }
}

} // verus!
