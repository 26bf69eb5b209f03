//! Protocol schema catalog: the externally supplied description of which
//! fields, in which order and type, compose each event id's payload.
//!
//! The catalog is built once from a list of schema records and is immutable
//! afterwards.  It answers lookups by event id (the authoritative key) and,
//! best-effort, by class name; for the class-name index the last record
//! with a given name wins, so records whose names all collapsed to the
//! reserved fallback collide on one slot.

use vstd::prelude::*;

verus! {

/// Numeric identifier of a protocol event.
pub type EventId = u16;

/// Name of one decoded field.
pub type FieldName = String;

/// Class name of a schema record.  Unrecognized or absent names all carry
/// the reserved fallback value, so this closed set has a single member.
#[derive(Clone, Copy, Debug, PartialEq, Eq, Hash, Structural)]
pub enum EventName {
    /// The reserved fallback for any unrecognized or absent class name.
    Unknown,
}

/// Closed set of field type tags a schema record may use.
#[derive(Clone, Copy, Debug, PartialEq, Eq, Hash, Structural)]
pub enum ProtocolVarType {
    UTF,
    VarUhShort,
    VarShort,
    Short,
    Float,
    VarUhLong,
    VarLong,
    Byte,
    VarUhInt,
    Int,
    Double,
    Boolean,
    UnsignedInt,
    UnsignedShort,
    VarInt,
    UnsignedByte,
    ByteArray,
    False,
    /// Catch-all for a tag with no defined decoding rule; decoding a field
    /// with this tag is an error, never a silent skip.
    Unknown,
}

/// One event schema record: an optional numeric id (records without one
/// are left out of the id index), a class name, an optional parent class
/// name, and the ordered field list that drives decoding.
#[derive(Debug, PartialEq, Eq)]
pub struct ProtocolEvent {
    pub id: Option<EventId>,
    pub name: EventName,
    pub parent: Option<EventName>,
    pub attributes: Vec<(FieldName, ProtocolVarType)>,
}

/// The map an association list denotes: a later entry for a key wins.
pub open spec fn assoc_map<K, V>(s: Seq<(K, V)>) -> Map<K, V>
    decreases s.len(),
{
    if s.len() == 0 {
        Map::empty()
    } else {
        assoc_map(s.drop_last()).insert(s.last().0, s.last().1)
    }
}

/// No two entries of the association list share a key.
pub open spec fn unique_keys<K, V>(s: Seq<(K, V)>) -> bool {
    forall|i: int, j: int| 0 <= i < j < s.len() ==> s[i].0 != s[j].0
}

/// A key that appears in no entry is not in the denoted map.
pub proof fn lemma_assoc_map_absent<K, V>(s: Seq<(K, V)>, k: K)
    requires
        forall|i: int| 0 <= i < s.len() ==> s[i].0 != k,
    ensures
        !assoc_map(s).contains_key(k),
    decreases s.len(),
{
    if s.len() > 0 {
        lemma_assoc_map_absent(s.drop_last(), k);
    }
}

/// Under unique keys, the entry holding a key gives its value in the map.
pub proof fn lemma_assoc_map_index<K, V>(s: Seq<(K, V)>, i: int)
    requires
        unique_keys(s),
        0 <= i < s.len(),
    ensures
        assoc_map(s).contains_key(s[i].0),
        assoc_map(s)[s[i].0] == s[i].1,
    decreases s.len(),
{
    if i < s.len() - 1 {
        lemma_assoc_map_index(s.drop_last(), i);
    }
}

/// Under unique keys, removing the entry that holds a key removes exactly
/// that key from the denoted map.
pub proof fn lemma_assoc_map_remove<K, V>(s: Seq<(K, V)>, i: int)
    requires
        unique_keys(s),
        0 <= i < s.len(),
    ensures
        assoc_map(s.remove(i)) == assoc_map(s).remove(s[i].0),
    decreases s.len(),
{
    let k = s[i].0;
    if i == s.len() - 1 {
        assert(s.remove(i) =~= s.drop_last());
        assert(forall|j: int| 0 <= j < s.drop_last().len() ==> s.drop_last()[j].0 != k);
        lemma_assoc_map_absent(s.drop_last(), k);
        assert(assoc_map(s.drop_last()) =~= assoc_map(s.drop_last()).insert(k, s[i].1).remove(k));
    } else {
        lemma_assoc_map_remove(s.drop_last(), i);
        assert(s.remove(i).drop_last() =~= s.drop_last().remove(i));
        assert(s.remove(i).last() == s.last());
        assert(assoc_map(s.drop_last()).remove(k).insert(s.last().0, s.last().1) =~= assoc_map(
            s.drop_last(),
        ).insert(s.last().0, s.last().1).remove(k));
    }
}

/// Replacing the one entry that holds a key by a fresh entry at the tail
/// keeps keys unique and updates the denoted map at that key alone.
pub proof fn lemma_assoc_upsert<K, V>(s: Seq<(K, V)>, i: int, key: K, val: V)
    requires
        unique_keys(s),
        0 <= i < s.len(),
        s[i].0 == key,
    ensures
        unique_keys(s.remove(i).push((key, val))),
        assoc_map(s.remove(i).push((key, val))) == assoc_map(s).insert(key, val),
{
    let removed = s.remove(i);
    let out = removed.push((key, val));
    assert forall|t: int| 0 <= t < removed.len() implies removed[t].0 != key by {
        if t < i {
            assert(removed[t] == s[t]);
        } else {
            assert(removed[t] == s[t + 1]);
        }
    }
    assert forall|a: int, b: int| 0 <= a < b < out.len() implies out[a].0 != out[b].0 by {
        if b < removed.len() {
            let a0: int = if a < i {
                a
            } else {
                a + 1
            };
            let b0: int = if b < i {
                b
            } else {
                b + 1
            };
            assert(out[a] == s[a0]);
            assert(out[b] == s[b0]);
        }
    }
    lemma_assoc_map_remove(s, i);
    assert(out.drop_last() =~= removed);
    assert(assoc_map(out) == assoc_map(removed).insert(key, val));
    assert(assoc_map(s).remove(key).insert(key, val) =~= assoc_map(s).insert(key, val));
}

/// The id-indexed map a record list denotes: each record that carries an
/// id is entered under it, and a later record with the same id wins.
pub open spec fn spec_id_map(records: Seq<ProtocolEvent>) -> Map<EventId, ProtocolEvent>
    decreases records.len(),
{
    if records.len() == 0 {
        Map::empty()
    } else {
        let m = spec_id_map(records.drop_last());
        match records.last().id {
            Some(i) => m.insert(i, records.last()),
            None => m,
        }
    }
}

/// The class-name index a record list denotes: the id of the last record
/// carrying an id, keyed by that record's class name.
pub open spec fn spec_class_map(records: Seq<ProtocolEvent>) -> Map<EventName, EventId>
    decreases records.len(),
{
    if records.len() == 0 {
        Map::empty()
    } else {
        let m = spec_class_map(records.drop_last());
        match records.last().id {
            Some(i) => m.insert(records.last().name, i),
            None => m,
        }
    }
}

/// Immutable catalog of event schemas, indexed by id and by class name.
#[derive(Debug)]
pub struct ProtocolManager {
    events_by_id: Vec<(EventId, ProtocolEvent)>,
    ids_by_class: Vec<(EventName, EventId)>,
}

impl ProtocolManager {
    /// Both indices carry each key at most once.
    pub closed spec fn wf(self) -> bool {
        unique_keys(self.events_by_id@) && unique_keys(self.ids_by_class@)
    }

    /// The id-indexed map this catalog holds.
    pub closed spec fn id_map(self) -> Map<EventId, ProtocolEvent> {
        assoc_map(self.events_by_id@)
    }

    /// The class-name index this catalog holds.
    pub closed spec fn class_map(self) -> Map<EventName, EventId> {
        assoc_map(self.ids_by_class@)
    }

    /// Builds the catalog from an ordered list of schema records: records
    /// without an id are skipped, and for both indices the last record
    /// wins a key collision.
    pub fn new(records: Vec<ProtocolEvent>) -> (r: ProtocolManager)
        ensures
            r.wf(),
            r.id_map() == spec_id_map(records@),
            r.class_map() == spec_class_map(records@),
    {
        let ghost orig = records@;
        let mut rest = records;
        let total = rest.len();
        let mut mgr = ProtocolManager { events_by_id: Vec::new(), ids_by_class: Vec::new() };
        let mut j: usize = 0;
        proof {
            assert(orig.take(0) =~= Seq::<ProtocolEvent>::empty());
        }
        while rest.len() > 0
            invariant
                total == orig.len(),
                j + rest@.len() == orig.len(),
                rest@ == orig.skip(j as int),
                unique_keys(mgr.events_by_id@),
                unique_keys(mgr.ids_by_class@),
                assoc_map(mgr.events_by_id@) == spec_id_map(orig.take(j as int)),
                assoc_map(mgr.ids_by_class@) == spec_class_map(orig.take(j as int)),
            decreases rest@.len(),
        {
            let ev = rest.remove(0);
            proof {
                assert(ev == orig[j as int]);
                assert(rest@ =~= orig.skip(j as int + 1));
            }
            let name = ev.name;
            match ev.id {
                Some(id) => {
                    upsert_event(&mut mgr.events_by_id, id, ev);
                    upsert_class(&mut mgr.ids_by_class, name, id);
                },
                None => {},
            }
            j = j + 1;
            proof {
                assert(orig.take(j as int).drop_last() =~= orig.take(j as int - 1));
                assert(orig.take(j as int).last() == orig[j as int - 1]);
            }
        }
        proof {
            assert(orig.take(j as int) =~= orig);
        }
        mgr
    }

    /// Looks an event schema up by its numeric id; absence is "not found",
    /// never an error.
    pub fn get_event(&self, id: &EventId) -> (r: Option<&ProtocolEvent>)
        requires
            self.wf(),
        ensures
            r.is_some() == self.id_map().contains_key(*id),
            r.is_some() ==> *r.unwrap() == self.id_map()[*id],
    {
        let n = self.events_by_id.len();
        let mut i: usize = 0;
        while i < n
            invariant
                self.wf(),
                n == self.events_by_id@.len(),
                0 <= i <= n,
                forall|t: int| 0 <= t < i ==> self.events_by_id@[t].0 != *id,
            decreases n - i,
        {
            if self.events_by_id[i].0 == *id {
                proof {
                    lemma_assoc_map_index(self.events_by_id@, i as int);
                }
                return Some(&self.events_by_id[i].1);
            }
            i = i + 1;
        }
        proof {
            lemma_assoc_map_absent(self.events_by_id@, *id);
        }
        None
    }

    /// Looks an event schema up through the best-effort class-name index:
    /// the name gives an id, and the id gives the schema.
    pub fn get_event_by_class(&self, class: &EventName) -> (r: Option<&ProtocolEvent>)
        requires
            self.wf(),
        ensures
            r.is_some() == (self.class_map().contains_key(*class) && self.id_map().contains_key(
                self.class_map()[*class],
            )),
            r.is_some() ==> *r.unwrap() == self.id_map()[self.class_map()[*class]],
    {
        let n = self.ids_by_class.len();
        let mut i: usize = 0;
        while i < n
            invariant
                self.wf(),
                n == self.ids_by_class@.len(),
                0 <= i <= n,
                forall|t: int| 0 <= t < i ==> self.ids_by_class@[t].0 != *class,
            decreases n - i,
        {
            if self.ids_by_class[i].0 == *class {
                proof {
                    lemma_assoc_map_index(self.ids_by_class@, i as int);
                }
                return self.get_event(&self.ids_by_class[i].1);
            }
            i = i + 1;
        }
        proof {
            lemma_assoc_map_absent(self.ids_by_class@, *class);
        }
        None
    }
}

/// Replaces or adds the entry for `key`, keeping keys unique.
fn upsert_event(v: &mut Vec<(EventId, ProtocolEvent)>, key: EventId, val: ProtocolEvent)
    requires
        unique_keys(old(v)@),
    ensures
        unique_keys(final(v)@),
        assoc_map(final(v)@) == assoc_map(old(v)@).insert(key, val),
{
    let n = v.len();
    let mut i: usize = 0;
    while i < n
        invariant
            v@ == old(v)@,
            unique_keys(v@),
            n == v@.len(),
            0 <= i <= n,
            forall|t: int| 0 <= t < i ==> v@[t].0 != key,
        decreases n - i,
    {
        if v[i].0 == key {
            proof {
                lemma_assoc_upsert(v@, i as int, key, val);
            }
            v.remove(i);
            v.push((key, val));
            return ;
        }
        i = i + 1;
    }
    proof {
        lemma_assoc_map_absent(v@, key);
        assert(v@.push((key, val)).drop_last() =~= v@);
        assert(assoc_map(v@.push((key, val))) == assoc_map(v@).insert(key, val));
    }
    v.push((key, val));
}

/// Replaces or adds the entry for `key`, keeping keys unique.
fn upsert_class(v: &mut Vec<(EventName, EventId)>, key: EventName, val: EventId)
    requires
        unique_keys(old(v)@),
    ensures
        unique_keys(final(v)@),
        assoc_map(final(v)@) == assoc_map(old(v)@).insert(key, val),
{
    let n = v.len();
    let mut i: usize = 0;
    while i < n
        invariant
            v@ == old(v)@,
            unique_keys(v@),
            n == v@.len(),
            0 <= i <= n,
            forall|t: int| 0 <= t < i ==> v@[t].0 != key,
        decreases n - i,
    {
        if v[i].0 == key {
            proof {
                lemma_assoc_upsert(v@, i as int, key, val);
            }
            v.remove(i);
            v.push((key, val));
            return ;
        }
        i = i + 1;
    }
    proof {
        lemma_assoc_map_absent(v@, key);
        assert(v@.push((key, val)).drop_last() =~= v@);
        assert(assoc_map(v@.push((key, val))) == assoc_map(v@).insert(key, val));
    }
    v.push((key, val));
}

} // verus!
