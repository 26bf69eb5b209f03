//! Event dispatcher: the registry of listeners keyed by event id.
//!
//! Listeners are kept in registration order; duplicate listener ids under
//! one event are kept until an explicit unsubscribe, which removes every
//! entry with that id under that event and is a no-op for an absent one.
//! `notify` answers the ordered list of callbacks registered for a decoded
//! packet's event id; invoking them — arbitrary external code — is the
//! caller's side of the bargain, as is any locking around the registry.

use vstd::prelude::*;
use vstd::string::StringSliceAdditionalSpecFns;
use vstd::utf8::encode_utf8_decode_utf8;

use crate::decoder::Packet;
use crate::schema::EventId;

verus! {

/// Opaque comparable token identifying a listener for later removal.
pub type ListenerId = &'static str;

/// Why a capture session could not be started.
#[derive(Clone, Copy, Debug, PartialEq, Eq, Structural)]
pub enum PacketListenerError {
    /// The capture device could not be opened.
    FailedToOpenDevice,
    /// No capture node was configured for the session.
    InvalidCaptureDevice,
}

impl PacketListenerError {
    /// A short description of the error.
    pub fn message(&self) -> (r: &'static str)
    {
        match self {
            PacketListenerError::FailedToOpenDevice => "Failed to open device",
            PacketListenerError::InvalidCaptureDevice => "Invalid capture device",
        }
    }
}

/// String equality over the characters, decided by comparing the UTF-8
/// encodings byte by byte.
pub fn str_eq(a: &str, b: &str) -> (r: bool)
    ensures
        r == (a@ == b@),
{
    proof {
        broadcast use encode_utf8_decode_utf8;

    }
    let ab = a.as_bytes();
    let bb = b.as_bytes();
    let n = ab.len();
    if n != bb.len() {
        return false;
    }
    let mut i: usize = 0;
    while i < n
        invariant
            n == ab@.len(),
            n == bb@.len(),
            ab@ == a.spec_bytes(),
            bb@ == b.spec_bytes(),
            0 <= i <= n,
            forall|t: int| 0 <= t < i ==> ab@[t] == bb@[t],
        decreases n - i,
    {
        if ab[i] != bb[i] {
            proof {
                broadcast use encode_utf8_decode_utf8;

                assert(a.spec_bytes()[i as int] != b.spec_bytes()[i as int]);
            }
            return false;
        }
        i = i + 1;
    }
    proof {
        assert(a.spec_bytes() =~= b.spec_bytes());
        encode_utf8_decode_utf8(a@);
        encode_utf8_decode_utf8(b@);
    }
    true
}

/// The listeners an entry list holds for one event id, as (listener id,
/// callback) pairs in registration order.
pub open spec fn subs_of<L>(s: Seq<(EventId, ListenerId, L)>, e: EventId) -> Seq<(Seq<char>, L)>
    decreases s.len(),
{
    if s.len() == 0 {
        Seq::empty()
    } else {
        let prefix = subs_of(s.drop_last(), e);
        if s.last().0 == e {
            prefix.push((s.last().1@, s.last().2))
        } else {
            prefix
        }
    }
}

/// The same listener list with every entry of one listener id removed.
pub open spec fn without_listener<L>(subs: Seq<(Seq<char>, L)>, id: Seq<char>) -> Seq<
    (Seq<char>, L),
>
    decreases subs.len(),
{
    if subs.len() == 0 {
        Seq::empty()
    } else {
        let prefix = without_listener(subs.drop_last(), id);
        if subs.last().0 == id {
            prefix
        } else {
            prefix.push(subs.last())
        }
    }
}

/// Whether a listener list holds an entry with the given listener id.
pub open spec fn has_listener<L>(subs: Seq<(Seq<char>, L)>, id: Seq<char>) -> bool {
    exists|k: int| 0 <= k < subs.len() && subs[k].0 == id
}

/// An entry list holds a listener under an event exactly when one of its
/// entries carries that event id and listener id.
proof fn lemma_subs_of_entry<L>(s: Seq<(EventId, ListenerId, L)>, e: EventId, id: Seq<char>)
    ensures
        has_listener(subs_of(s, e), id) <==> exists|j: int|
            0 <= j < s.len() && s[j].0 == e && s[j].1@ == id,
    decreases s.len(),
{
    if s.len() > 0 {
        lemma_subs_of_entry(s.drop_last(), e, id);
        let prefix = subs_of(s.drop_last(), e);
        if has_listener(prefix, id) {
            let k = choose|k: int| 0 <= k < prefix.len() && prefix[k].0 == id;
            if s.last().0 == e {
                assert(subs_of(s, e)[k].0 == id);
            }
            let j = choose|j: int|
                0 <= j < s.drop_last().len() && s.drop_last()[j].0 == e && s.drop_last()[j].1@
                    == id;
            assert(s[j].0 == e && s[j].1@ == id);
        }
        if s.last().0 == e && s.last().1@ == id {
            assert(subs_of(s, e).last().0 == id);
            assert(has_listener(subs_of(s, e), id));
        }
        if has_listener(subs_of(s, e), id) && !has_listener(prefix, id) && !(s.last().0 == e
            && s.last().1@ == id) {
            let k = choose|k: int| 0 <= k < subs_of(s, e).len() && subs_of(s, e)[k].0 == id;
            if s.last().0 == e {
                assert(k < prefix.len());
                assert(prefix[k].0 == id);
            }
            assert(false);
        }
        if (exists|j: int| 0 <= j < s.len() && s[j].0 == e && s[j].1@ == id) && !(s.last().0 == e
            && s.last().1@ == id) {
            let j = choose|j: int| 0 <= j < s.len() && s[j].0 == e && s[j].1@ == id;
            assert(j < s.len() - 1);
            assert(s.drop_last()[j].0 == e && s.drop_last()[j].1@ == id);
        }
    }
}

/// An entry list holds some listener for an event exactly when one of its
/// entries carries that event id.
proof fn lemma_subs_of_nonempty<L>(s: Seq<(EventId, ListenerId, L)>, e: EventId)
    ensures
        subs_of(s, e).len() > 0 <==> exists|j: int| 0 <= j < s.len() && s[j].0 == e,
    decreases s.len(),
{
    if s.len() > 0 {
        lemma_subs_of_nonempty(s.drop_last(), e);
        if s.last().0 == e {
            assert(s[s.len() - 1].0 == e);
        } else if exists|j: int| 0 <= j < s.len() && s[j].0 == e {
            let j = choose|j: int| 0 <= j < s.len() && s[j].0 == e;
            assert(j < s.len() - 1);
            assert(s.drop_last()[j].0 == e);
        }
    }
}

/// Registry of listeners keyed by event id, with the session's node handle
/// and the liveness timestamp of the last received frame.  `N` is the
/// session-shared state handed to callbacks; `L` the callback token.
#[derive(Debug)]
pub struct PacketListener<N, L> {
    subscriptions: Vec<(EventId, ListenerId, L)>,
    node: Option<N>,
    /// Milliseconds timestamp of the last received frame, updated by the
    /// capture loop on every frame regardless of parse outcome.
    pub last_packet_time: u128,
}

impl<N, L: Copy> PacketListener<N, L> {
    /// The (listener id, callback) pairs registered for an event id, in
    /// registration order.
    pub closed spec fn subs(self, e: EventId) -> Seq<(Seq<char>, L)> {
        subs_of(self.subscriptions@, e)
    }

    /// The session-shared state handle, once set.
    pub closed spec fn node_view(self) -> Option<N> {
        self.node
    }

    /// The liveness timestamp, as contracts see it.
    pub closed spec fn time(self) -> u128 {
        self.last_packet_time
    }

    /// An empty registry with no node handle.
    pub fn new() -> (r: PacketListener<N, L>)
        ensures
            forall|e: EventId| #[trigger] r.subs(e) == Seq::<(Seq<char>, L)>::empty(),
            r.node_view() is None,
            r.time() == 0,
    {
        PacketListener { subscriptions: Vec::new(), node: None, last_packet_time: 0 }
    }

    /// Hands the registry the session-shared state that callbacks receive.
    pub fn set_node(&mut self, node: N)
        ensures
            final(self).node_view() == Some(node),
            forall|e: EventId| #[trigger] final(self).subs(e) == old(self).subs(e),
            final(self).time() == old(self).time(),
    {
        self.node = Some(node);
    }

    /// Appends a listener to an event's list in registration order;
    /// duplicate listener ids are kept.
    pub fn subscribe(&mut self, event: EventId, listener_id: ListenerId, listener: L)
        ensures
            final(self).subs(event) == old(self).subs(event).push((listener_id@, listener)),
            forall|e2: EventId|
                e2 != event ==> #[trigger] final(self).subs(e2) == old(self).subs(e2),
            final(self).node_view() == old(self).node_view(),
            final(self).time() == old(self).time(),
    {
        self.subscriptions.push((event, listener_id, listener));
        proof {
            assert(self.subscriptions@.drop_last() =~= old(self).subscriptions@);
        }
    }

    /// Removes every entry with this listener id under this event id; a
    /// no-op when none is registered.
    pub fn unsubscribe(&mut self, event: &EventId, listener_id: ListenerId)
        ensures
            final(self).subs(*event) == without_listener(old(self).subs(*event), listener_id@),
            forall|e2: EventId|
                e2 != *event ==> #[trigger] final(self).subs(e2) == old(self).subs(e2),
            final(self).node_view() == old(self).node_view(),
            final(self).time() == old(self).time(),
    {
        let ghost orig = self.subscriptions@;
        let n = self.subscriptions.len();
        let mut kept: Vec<(EventId, ListenerId, L)> = Vec::new();
        let mut j: usize = 0;
        proof {
            assert(orig.take(0) =~= Seq::<(EventId, ListenerId, L)>::empty());
        }
        while j < n
            invariant
                self.subscriptions@ == orig,
                n == orig.len(),
                0 <= j <= n,
                subs_of(kept@, *event) == without_listener(
                    subs_of(orig.take(j as int), *event),
                    listener_id@,
                ),
                forall|e2: EventId|
                    e2 != *event ==> #[trigger] subs_of(kept@, e2) == subs_of(
                        orig.take(j as int),
                        e2,
                    ),
            decreases n - j,
        {
            let t = self.subscriptions[j];
            let drop_entry = t.0 == *event && str_eq(t.1, listener_id);
            let ghost prev_kept = kept@;
            if !drop_entry {
                kept.push(t);
            }
            j = j + 1;
            proof {
                let stepped = orig.take(j as int);
                assert(stepped.drop_last() =~= orig.take(j as int - 1));
                assert(stepped.last() == t);
                if !drop_entry {
                    assert(kept@.drop_last() =~= prev_kept);
                }
                assert forall|e2: EventId| e2 != *event implies #[trigger] subs_of(kept@, e2)
                    == subs_of(stepped, e2) by {
                    let before = subs_of(orig.take(j as int - 1), e2);
                    if !drop_entry {
                        if t.0 == e2 {
                            assert(subs_of(kept@, e2) == subs_of(prev_kept, e2).push((t.1@, t.2)));
                            assert(subs_of(stepped, e2) == before.push((t.1@, t.2)));
                        } else {
                            assert(subs_of(kept@, e2) == subs_of(prev_kept, e2));
                            assert(subs_of(stepped, e2) == before);
                        }
                    } else {
                        assert(subs_of(stepped, e2) == before);
                    }
                }
                let prior = subs_of(orig.take(j as int - 1), *event);
                if t.0 == *event {
                    assert(subs_of(stepped, *event) == prior.push((t.1@, t.2)));
                    assert(prior.push((t.1@, t.2)).drop_last() =~= prior);
                    if drop_entry {
                        assert(without_listener(subs_of(stepped, *event), listener_id@)
                            == without_listener(prior, listener_id@));
                    }
                }
            }
        }
        proof {
            assert(orig.take(n as int) =~= orig);
        }
        self.subscriptions = kept;
    }

    /// Whether this listener id is currently registered under this event.
    pub fn has_subscriptions_for(&self, event: &EventId, listener_id: ListenerId) -> (r: bool)
        ensures
            r == has_listener(self.subs(*event), listener_id@),
    {
        let n = self.subscriptions.len();
        let mut j: usize = 0;
        while j < n
            invariant
                n == self.subscriptions@.len(),
                0 <= j <= n,
                forall|t: int|
                    0 <= t < j ==> !(self.subscriptions@[t].0 == *event
                        && self.subscriptions@[t].1@ == listener_id@),
            decreases n - j,
        {
            let t = self.subscriptions[j];
            if t.0 == *event && str_eq(t.1, listener_id) {
                proof {
                    lemma_subs_of_entry(self.subscriptions@, *event, listener_id@);
                }
                return true;
            }
            j = j + 1;
        }
        proof {
            lemma_subs_of_entry(self.subscriptions@, *event, listener_id@);
        }
        false
    }

    /// Whether any listener is currently registered under this event.
    pub fn has_subscriptions(&self, event: &EventId) -> (r: bool)
        ensures
            r == (self.subs(*event).len() > 0),
    {
        let n = self.subscriptions.len();
        let mut j: usize = 0;
        while j < n
            invariant
                n == self.subscriptions@.len(),
                0 <= j <= n,
                forall|t: int| 0 <= t < j ==> self.subscriptions@[t].0 != *event,
            decreases n - j,
        {
            if self.subscriptions[j].0 == *event {
                proof {
                    lemma_subs_of_nonempty(self.subscriptions@, *event);
                }
                return true;
            }
            j = j + 1;
        }
        proof {
            lemma_subs_of_nonempty(self.subscriptions@, *event);
        }
        false
    }

    /// The callbacks to invoke for a decoded packet: every listener
    /// currently registered for its event id, each exactly once, in
    /// registration order.  Invoking them is the caller's step; the
    /// registry itself stays unchanged.
    pub fn notify(&self, packet: &Packet) -> (r: Vec<L>)
        ensures
            r@ == self.subs(packet.id).map_values(|p: (Seq<char>, L)| p.1),
    {
        let n = self.subscriptions.len();
        let mut out: Vec<L> = Vec::new();
        let mut j: usize = 0;
        proof {
            assert(self.subscriptions@.take(0) =~= Seq::<(EventId, ListenerId, L)>::empty());
            assert(out@ =~= subs_of(self.subscriptions@.take(0), packet.id).map_values(
                |p: (Seq<char>, L)| p.1,
            ));
        }
        while j < n
            invariant
                n == self.subscriptions@.len(),
                0 <= j <= n,
                out@ == subs_of(self.subscriptions@.take(j as int), packet.id).map_values(
                    |p: (Seq<char>, L)| p.1,
                ),
            decreases n - j,
        {
            let t = self.subscriptions[j];
            if t.0 == packet.id {
                out.push(t.2);
            }
            j = j + 1;
            proof {
                let stepped = self.subscriptions@.take(j as int);
                assert(stepped.drop_last() =~= self.subscriptions@.take(j as int - 1));
                assert(stepped.last() == t);
                if t.0 == packet.id {
                    assert(out@ =~= subs_of(stepped, packet.id).map_values(
                        |p: (Seq<char>, L)| p.1,
                    ));
                }
            }
        }
        proof {
            assert(self.subscriptions@.take(n as int) =~= self.subscriptions@);
        }
        out
    }

    /// How many entries are currently registered under this event.
    pub fn listener_count(&self, event: &EventId) -> (r: usize)
        ensures
            r == self.subs(*event).len(),
    {
        let n = self.subscriptions.len();
        let mut count: usize = 0;
        let mut j: usize = 0;
        proof {
            assert(self.subscriptions@.take(0) =~= Seq::<(EventId, ListenerId, L)>::empty());
        }
        while j < n
            invariant
                n == self.subscriptions@.len(),
                0 <= j <= n,
                count == subs_of(self.subscriptions@.take(j as int), *event).len(),
                count <= j,
            decreases n - j,
        {
            let t = self.subscriptions[j];
            j = j + 1;
            proof {
                let stepped = self.subscriptions@.take(j as int);
                assert(stepped.drop_last() =~= self.subscriptions@.take(j as int - 1));
                assert(stepped.last() == t);
            }
            if t.0 == *event {
                count = count + 1;
            }
        }
        proof {
            assert(self.subscriptions@.take(n as int) =~= self.subscriptions@);
        }
        count
    }
}

/// Subscribing a listener and then unsubscribing it leaves it without a
/// subscription for that event, while every other listener id keeps
/// exactly its prior registration state under that event.
pub proof fn lemma_subscribe_unsubscribe_cancels<L>(
    subs: Seq<(Seq<char>, L)>,
    id: Seq<char>,
    callback: L,
)
    ensures
        !has_listener(without_listener(subs.push((id, callback)), id), id),
        forall|id2: Seq<char>|
            id2 != id ==> has_listener(without_listener(subs.push((id, callback)), id), id2)
                == has_listener(subs, id2),
{
    let after = without_listener(subs.push((id, callback)), id);
    assert(subs.push((id, callback)).drop_last() =~= subs);
    assert(after == without_listener(subs, id));
    lemma_without_listener_absent(subs, id);
    assert forall|id2: Seq<char>| id2 != id implies has_listener(
        without_listener(subs.push((id, callback)), id),
        id2,
    ) == has_listener(subs, id2) by {
        lemma_without_listener_other(subs, id, id2);
    }
}

/// Removing a listener id removes it entirely.
proof fn lemma_without_listener_absent<L>(subs: Seq<(Seq<char>, L)>, id: Seq<char>)
    ensures
        !has_listener(without_listener(subs, id), id),
    decreases subs.len(),
{
    if subs.len() > 0 {
        lemma_without_listener_absent(subs.drop_last(), id);
        let prefix = without_listener(subs.drop_last(), id);
        if subs.last().0 != id {
            if has_listener(without_listener(subs, id), id) {
                let k = choose|k: int|
                    0 <= k < without_listener(subs, id).len() && without_listener(subs, id)[k].0
                        == id;
                assert(k < prefix.len());
                assert(prefix[k].0 == id);
            }
        }
    }
}

/// Removing one listener id keeps every other id's presence unchanged.
proof fn lemma_without_listener_other<L>(subs: Seq<(Seq<char>, L)>, id: Seq<char>, id2: Seq<char>)
    requires
        id2 != id,
    ensures
        has_listener(without_listener(subs, id), id2) == has_listener(subs, id2),
    decreases subs.len(),
{
    if subs.len() > 0 {
        lemma_without_listener_other(subs.drop_last(), id, id2);
        let prefix = without_listener(subs.drop_last(), id);
        let whole = without_listener(subs, id);
        if subs.last().0 == id {
            if has_listener(subs, id2) {
                let j = choose|j: int| 0 <= j < subs.len() && subs[j].0 == id2;
                assert(j < subs.len() - 1);
                assert(subs.drop_last()[j].0 == id2);
            }
            if has_listener(subs.drop_last(), id2) {
                let j = choose|j: int|
                    0 <= j < subs.drop_last().len() && subs.drop_last()[j].0 == id2;
                assert(subs[j].0 == id2);
            }
        } else {
            assert(whole == prefix.push(subs.last()));
            if has_listener(subs.drop_last(), id2) {
                let j = choose|j: int|
                    0 <= j < subs.drop_last().len() && subs.drop_last()[j].0 == id2;
                assert(subs[j].0 == id2);
            }
            if has_listener(prefix, id2) {
                let k = choose|k: int| 0 <= k < prefix.len() && prefix[k].0 == id2;
                assert(whole[k].0 == id2);
            }
            if subs.last().0 == id2 {
                assert(whole.last().0 == id2);
                assert(subs[subs.len() - 1].0 == id2);
            }
            if has_listener(whole, id2) && !has_listener(prefix, id2) && subs.last().0 != id2 {
                let k = choose|k: int| 0 <= k < whole.len() && whole[k].0 == id2;
                assert(k < prefix.len());
                assert(prefix[k].0 == id2);
            }
            if has_listener(subs, id2) && !has_listener(subs.drop_last(), id2) && subs.last().0
                != id2 {
                let j = choose|j: int| 0 <= j < subs.len() && subs[j].0 == id2;
                assert(j < subs.len() - 1);
                assert(subs.drop_last()[j].0 == id2);
            }
        }
    }
}

} // verus!
