//! The durable state: one event record for every identifier.

use vstd::prelude::*;
use crate::keyed::{
    lemma_insert_map, lemma_map_of_at, lemma_update_map, map_of, slot_of, strictly_ascending,
    StrMap,
};
use crate::model::{record_views, EventRecord, RecordView};

verus! {

/// The version of the layout that `State::new` writes.
pub const SCHEMA_VERSION: u32 = 1;

/// The event records of all sources, one for each identifier, walked in
/// ascending order of the identifiers.
#[derive(Clone, Debug)]
pub struct State {
    pub schema_version: u32,
    pub events: StrMap<EventRecord>,
}

impl View for State {
    type V = Map<Seq<char>, RecordView>;

    /// The record of every identifier.
    closed spec fn view(&self) -> Map<Seq<char>, RecordView> {
        map_of(self.events.keys(), record_views(self.events.values()))
    }
}

impl State {
    /// The identifiers, in ascending order.
    pub closed spec fn uids(&self) -> Seq<Seq<char>> {
        self.events.keys()
    }

    /// The records, each at the index of its identifier.
    pub closed spec fn records(&self) -> Seq<RecordView> {
        record_views(self.events.values())
    }

    /// The stored records themselves.
    pub closed spec fn stored(&self) -> Seq<EventRecord> {
        self.events.values()
    }

    /// Every record is filed under its own identifier, and no identifier
    /// occurs twice.
    pub closed spec fn wf(&self) -> bool {
        &&& self.events.wf()
        &&& forall|i: int|
            0 <= i < self.events.values().len() ==> {
                &&& (#[trigger] self.events.values()[i]).wf()
                &&& self.events.values()[i].uid@ == self.events.keys()[i]
            }
    }

    /// What `wf` says, over `uids`, `records` and the view.
    pub proof fn lemma_wf(&self)
        requires
            self.wf(),
        ensures
            self.uids().len() == self.records().len(),
            self.stored().len() == self.records().len(),
            strictly_ascending(self.uids()),
            self@ == map_of(self.uids(), self.records()),
            forall|i: int| 0 <= i < self.records().len() ==> (#[trigger] self.stored()[i])@ == self.records()[i],
            forall|i: int| 0 <= i < self.records().len() ==> (#[trigger] self.stored()[i]).wf(),
            forall|i: int|
                0 <= i < self.records().len() ==> (#[trigger] self.records()[i]).uid == self.uids()[i],
            forall|i: int|
                0 <= i < self.records().len() ==> self@.contains_key(#[trigger] self.uids()[i])
                    && self@[self.uids()[i]] == self.records()[i],
            forall|u: Seq<char>| self@.contains_key(u) <==> self.uids().contains(u),
    {
        assert forall|i: int| 0 <= i < self.records().len() implies self@.contains_key(
            #[trigger] self.uids()[i],
        ) && self@[self.uids()[i]] == self.records()[i] by {
            lemma_map_of_at(self.uids(), self.records(), i);
        }
        assert forall|i: int| 0 <= i < self.records().len() implies (
        #[trigger] self.records()[i]).uid == self.uids()[i] by {
            assert(self.events.values()[i].uid@ == self.events.keys()[i]);
        }
    }

    /// An empty state.
    pub fn new() -> (s: State)
        ensures
            s.wf(),
            s.schema_version == SCHEMA_VERSION,
            s@ == Map::<Seq<char>, RecordView>::empty(),
            s.uids().len() == 0,
    {
        let s = State { schema_version: SCHEMA_VERSION, events: StrMap::new() };
        assert(s@ =~= Map::<Seq<char>, RecordView>::empty());
        s
    }

    /// The number of records.
    pub fn len(&self) -> (n: usize)
        requires
            self.wf(),
        ensures
            n == self.uids().len(),
            n == self.records().len(),
    {
        self.events.len()
    }

    /// The record at index `i` of the walk.
    pub fn record_at(&self, i: usize) -> (r: &EventRecord)
        requires
            self.wf(),
            i < self.uids().len(),
        ensures
            r@ == self.records()[i as int],
            *r == self.stored()[i as int],
            r.wf(),
            r.uid@ == self.uids()[i as int],
    {
        self.events.value_at(i)
    }

    /// The index of the record with the identifier `uid` (`Ok`), or the index
    /// at which such a record would be filed (`Err`).
    pub fn position(&self, uid: &str) -> (r: Result<usize, usize>)
        requires
            self.wf(),
        ensures
            match r {
                Ok(i) => i < self.uids().len() && self.uids()[i as int] == uid@
                    && self@.contains_key(uid@) && self@[uid@] == self.records()[i as int],
                Err(i) => slot_of(self.uids(), uid@, i as int) && !self@.contains_key(uid@),
            },
    {
        let r = self.events.position(uid);
        proof {
            self.lemma_wf();
        }
        r
    }

    /// The record with the identifier `uid`, if there is one.
    pub fn get(&self, uid: &str) -> (r: Option<&EventRecord>)
        requires
            self.wf(),
        ensures
            match r {
                Some(record) => self@.contains_key(uid@) && self@[uid@] == record@ && record.wf(),
                None => !self@.contains_key(uid@),
            },
    {
        match self.position(uid) {
            Ok(i) => Some(self.events.value_at(i)),
            Err(_) => None,
        }
    }

    /// Puts `record` in place of the record at index `i`, which has the same
    /// identifier.
    pub fn replace_at(&mut self, i: usize, record: EventRecord)
        requires
            old(self).wf(),
            record.wf(),
            i < old(self).uids().len(),
            record.uid@ == old(self).uids()[i as int],
        ensures
            final(self).wf(),
            final(self).schema_version == old(self).schema_version,
            final(self).uids() == old(self).uids(),
            final(self).records() == old(self).records().update(i as int, record@),
            final(self).stored() == old(self).stored().update(i as int, record),
            final(self)@ == old(self)@.insert(record.uid@, record@),
    {
        proof {
            self.lemma_wf();
            lemma_update_map(self.uids(), self.records(), i as int, record@);
        }
        self.events.set_value_at(i, record);
        assert(self.records() =~= old(self).records().update(i as int, record@));
    }

    /// Files `record` under its identifier, in place of the record that was
    /// there, if any.
    pub fn insert(&mut self, record: EventRecord)
        requires
            old(self).wf(),
            record.wf(),
        ensures
            final(self).wf(),
            final(self).schema_version == old(self).schema_version,
            final(self)@ == old(self)@.insert(record.uid@, record@),
            final(self).uids().len() <= old(self).uids().len() + 1,
    {
        let uid = record.uid.clone();
        match self.position(uid.as_str()) {
            Ok(i) => {
                self.replace_at(i, record);
            },
            Err(i) => {
                proof {
                    self.lemma_wf();
                    lemma_insert_map(self.uids(), self.records(), uid@, record@, i as int);
                    self.events.lemma_slot_is_position(uid@, i as int);
                }
                let ghost r = record;
                self.events.insert(uid, record);
                assert(self.records() =~= old(self).records().insert(i as int, r@));
                assert forall|k: int| 0 <= k < self.events.values().len() implies {
                    &&& (#[trigger] self.events.values()[k]).wf()
                    &&& self.events.values()[k].uid@ == self.events.keys()[k]
                } by {
                    if k < i {
                        assert(self.events.values()[k] == old(self).events.values()[k]);
                    } else if k > i {
                        assert(self.events.values()[k] == old(self).events.values()[k - 1]);
                    }
                }
            },
        }
    }
}

impl Default for State {
    /// An empty state.
    fn default() -> (s: State)
        ensures
            s.wf(),
            s.schema_version == SCHEMA_VERSION,
            s@ == Map::<Seq<char>, RecordView>::empty(),
    {
        State::new()
    }
}

} // verus!
