//! Candidate events, stored event records, the state that holds them and the
//! report of one source's run.

use vstd::prelude::*;
use crate::keyed::StrMap;
pub use crate::state::State;
use crate::text::{clone_opt, clone_strings, opt_view, views};
pub use crate::time::{CalendarDate, EventTimeSpec, TimeView, UtcInstant};

verus! {

/// The entries of a string map, as pairs of key and value in walking order.
pub open spec fn pairs(m: StrMap<String>) -> Seq<(Seq<char>, Seq<char>)> {
    Seq::new(m.keys().len(), |i: int| (m.keys()[i], m.values()[i]@))
}

/// Whether the entry at index `i` has the key `k`.
pub open spec fn keyed_at(p: Seq<(Seq<char>, Seq<char>)>, i: int, k: Seq<char>) -> bool {
    0 <= i < p.len() && p[i].0 == k
}

/// The map from the key of every entry to its value.
pub open spec fn pairs_map(p: Seq<(Seq<char>, Seq<char>)>) -> Map<Seq<char>, Seq<char>> {
    Map::new(
        |k: Seq<char>| exists|i: int| #[trigger] keyed_at(p, i, k),
        |k: Seq<char>| p[choose|i: int| #[trigger] keyed_at(p, i, k)].1,
    )
}

/// The entries of a string map describe its text map.
pub proof fn lemma_pairs_map(m: StrMap<String>)
    requires
        m.wf(),
    ensures
        pairs_map(pairs(m)) == crate::keyed::text_map(m),
{
    let p = pairs(m);
    let left = pairs_map(p);
    let right = crate::keyed::text_map(m);
    assert forall|k: Seq<char>| left.contains_key(k) <==> right.contains_key(k) by {
        if left.contains_key(k) {
            let i = choose|i: int| #[trigger] keyed_at(p, i, k);
            assert(m.keys()[i] == k);
        }
        if right.contains_key(k) {
            let i = choose|i: int| 0 <= i < m.keys().len() && m.keys()[i] == k;
            assert(keyed_at(p, i, k));
        }
    }
    assert forall|k: Seq<char>| left.contains_key(k) implies left[k] == right[k] by {
        let i = choose|i: int| #[trigger] keyed_at(p, i, k);
        crate::keyed::lemma_map_of_at(m.keys(), m.values(), i);
    }
    assert(left =~= right);
}

/// An owned copy of a string map.
pub fn copy_map(m: &StrMap<String>) -> (out: StrMap<String>)
    requires
        m.wf(),
    ensures
        out.wf(),
        pairs(out) == pairs(*m),
        out.keys() == m.keys(),
{
    let mut out: StrMap<String> = StrMap::new();
    let mut i: usize = 0;
    while i < m.len()
        invariant
            m.wf(),
            out.wf(),
            i <= m.keys().len(),
            out.keys() == m.keys().take(i as int),
            views(out.values()) == views(m.values()).take(i as int),
        decreases m.keys().len() - i,
    {
        let k = m.key_at(i).clone();
        let v = m.value_at(i).clone();
        proof {
            assert forall|j: int| 0 <= j < i implies crate::text::str_lt(
                #[trigger] out.keys()[j],
                k@,
            ) by {
                assert(out.keys()[j] == m.keys()[j]);
            }
            assert(crate::keyed::slot_of(out.keys(), k@, i as int));
            out.lemma_slot_is_position(k@, i as int);
        }
        out.insert(k, v);
        i += 1;
        assert(out.keys() =~= m.keys().take(i as int));
        assert(views(out.values()) =~= views(m.values()).take(i as int));
    }
    assert(m.keys().take(i as int) =~= m.keys());
    assert(views(m.values()).take(i as int) =~= views(m.values()));
    assert(pairs(out) =~= pairs(*m)) by {
        assert forall|j: int| 0 <= j < out.keys().len() implies pairs(out)[j] == pairs(*m)[j] by {
            assert(views(out.values())[j] == views(m.values())[j]);
        }
    }
    out
}

/// An event as a source announces it, before it has an identity.
///
/// `confidence` counts ten-thousandths: 9500 stands for 0.95.
#[derive(Clone, Debug)]
pub struct CandidateEvent {
    pub source_key: String,
    pub source_name: String,
    pub source_event_id: Option<String>,
    pub source_url: Option<String>,
    pub title: String,
    pub description: Option<String>,
    pub time: EventTimeSpec,
    pub timezone: Option<String>,
    pub status: String,
    pub event_type: String,
    pub subtype: Option<String>,
    pub categories: Vec<String>,
    pub jurisdiction: Option<String>,
    pub country: Option<String>,
    pub importance: Option<u8>,
    pub confidence: Option<i64>,
    pub metadata: StrMap<String>,
}

/// The mathematical value of a candidate event.
pub struct CandidateView {
    pub source_key: Seq<char>,
    pub source_name: Seq<char>,
    pub source_event_id: Option<Seq<char>>,
    pub source_url: Option<Seq<char>>,
    pub title: Seq<char>,
    pub description: Option<Seq<char>>,
    pub time: TimeView,
    pub timezone: Option<Seq<char>>,
    pub status: Seq<char>,
    pub event_type: Seq<char>,
    pub subtype: Option<Seq<char>>,
    pub categories: Seq<Seq<char>>,
    pub jurisdiction: Option<Seq<char>>,
    pub country: Option<Seq<char>>,
    pub importance: Option<u8>,
    pub confidence: Option<i64>,
    pub metadata: Seq<(Seq<char>, Seq<char>)>,
}

impl View for CandidateEvent {
    type V = CandidateView;

    open spec fn view(&self) -> CandidateView {
        CandidateView {
            source_key: self.source_key@,
            source_name: self.source_name@,
            source_event_id: opt_view(self.source_event_id),
            source_url: opt_view(self.source_url),
            title: self.title@,
            description: opt_view(self.description),
            time: self.time@,
            timezone: opt_view(self.timezone),
            status: self.status@,
            event_type: self.event_type@,
            subtype: opt_view(self.subtype),
            categories: views(self.categories@),
            jurisdiction: opt_view(self.jurisdiction),
            country: opt_view(self.country),
            importance: self.importance,
            confidence: self.confidence,
            metadata: pairs(self.metadata),
        }
    }
}

impl CandidateEvent {
    pub open spec fn wf(&self) -> bool {
        self.metadata.wf()
    }

    /// An owned copy of the candidate.
    pub fn copy(&self) -> (out: CandidateEvent)
        requires
            self.wf(),
        ensures
            out.wf(),
            out@ == self@,
    {
        CandidateEvent {
            source_key: self.source_key.clone(),
            source_name: self.source_name.clone(),
            source_event_id: clone_opt(&self.source_event_id),
            source_url: clone_opt(&self.source_url),
            title: self.title.clone(),
            description: clone_opt(&self.description),
            time: self.time.copy(),
            timezone: clone_opt(&self.timezone),
            status: self.status.clone(),
            event_type: self.event_type.clone(),
            subtype: clone_opt(&self.subtype),
            categories: clone_strings(&self.categories),
            jurisdiction: clone_opt(&self.jurisdiction),
            country: clone_opt(&self.country),
            importance: self.importance,
            confidence: self.confidence,
            metadata: copy_map(&self.metadata),
        }
    }
}

/// An event as the state stores it: a candidate with its identity, its
/// revision count and hash, and three time stamps.
#[derive(Clone, Debug)]
pub struct EventRecord {
    pub uid: String,
    pub source_key: String,
    pub source_name: String,
    pub source_event_id: Option<String>,
    pub source_url: Option<String>,
    pub title: String,
    pub description: Option<String>,
    pub time: EventTimeSpec,
    pub timezone: Option<String>,
    pub status: String,
    pub event_type: String,
    pub subtype: Option<String>,
    pub categories: Vec<String>,
    pub jurisdiction: Option<String>,
    pub country: Option<String>,
    pub importance: Option<u8>,
    pub confidence: Option<i64>,
    pub metadata: StrMap<String>,
    pub sequence: u32,
    pub revision_hash: String,
    pub created_at: UtcInstant,
    pub last_modified: UtcInstant,
    pub last_seen_at: UtcInstant,
}

/// The mathematical value of an event record.
pub struct RecordView {
    pub uid: Seq<char>,
    pub content: CandidateView,
    pub sequence: u32,
    pub revision_hash: Seq<char>,
    pub created_at: UtcInstant,
    pub last_modified: UtcInstant,
    pub last_seen_at: UtcInstant,
}

impl View for EventRecord {
    type V = RecordView;

    open spec fn view(&self) -> RecordView {
        RecordView {
            uid: self.uid@,
            content: CandidateView {
                source_key: self.source_key@,
                source_name: self.source_name@,
                source_event_id: opt_view(self.source_event_id),
                source_url: opt_view(self.source_url),
                title: self.title@,
                description: opt_view(self.description),
                time: self.time@,
                timezone: opt_view(self.timezone),
                status: self.status@,
                event_type: self.event_type@,
                subtype: opt_view(self.subtype),
                categories: views(self.categories@),
                jurisdiction: opt_view(self.jurisdiction),
                country: opt_view(self.country),
                importance: self.importance,
                confidence: self.confidence,
                metadata: pairs(self.metadata),
            },
            sequence: self.sequence,
            revision_hash: self.revision_hash@,
            created_at: self.created_at,
            last_modified: self.last_modified,
            last_seen_at: self.last_seen_at,
        }
    }
}

impl RecordView {
    pub open spec fn year_bucket(self) -> Option<i32> {
        self.content.time.year_bucket()
    }

    pub open spec fn is_future_relative_to(self, date: CalendarDate) -> bool {
        self.content.time.is_future_relative_to(date)
    }
}

impl EventRecord {
    pub open spec fn wf(&self) -> bool {
        self.metadata.wf()
    }

    pub fn year_bucket(&self) -> (r: Option<i32>)
        ensures
            r == self@.year_bucket(),
    {
        self.time.year_bucket()
    }

    pub fn is_future_relative_to(&self, date: CalendarDate) -> (r: bool)
        ensures
            r == self@.is_future_relative_to(date),
    {
        self.time.is_future_relative_to(date)
    }

    /// An owned copy of the record.
    pub fn copy(&self) -> (out: EventRecord)
        requires
            self.wf(),
        ensures
            out.wf(),
            out@ == self@,
    {
        EventRecord {
            uid: self.uid.clone(),
            source_key: self.source_key.clone(),
            source_name: self.source_name.clone(),
            source_event_id: clone_opt(&self.source_event_id),
            source_url: clone_opt(&self.source_url),
            title: self.title.clone(),
            description: clone_opt(&self.description),
            time: self.time.copy(),
            timezone: clone_opt(&self.timezone),
            status: self.status.clone(),
            event_type: self.event_type.clone(),
            subtype: clone_opt(&self.subtype),
            categories: clone_strings(&self.categories),
            jurisdiction: clone_opt(&self.jurisdiction),
            country: clone_opt(&self.country),
            importance: self.importance,
            confidence: self.confidence,
            metadata: copy_map(&self.metadata),
            sequence: self.sequence,
            revision_hash: self.revision_hash.clone(),
            created_at: self.created_at,
            last_modified: self.last_modified,
            last_seen_at: self.last_seen_at,
        }
    }
}

/// The views of a sequence of records.
pub open spec fn record_views(records: Seq<EventRecord>) -> Seq<RecordView> {
    records.map_values(|r: EventRecord| r@)
}

/// What one run did for one source.
#[derive(Clone, Debug)]
pub struct SourceRunReport {
    pub source_key: String,
    pub pages_fetched: usize,
    pub records_parsed: usize,
    pub inserted: usize,
    pub updated: usize,
    pub cancelled: usize,
    pub unchanged: usize,
}

impl Default for SourceRunReport {
    fn default() -> (r: SourceRunReport)
        ensures
            r.source_key@ == Seq::<char>::empty(),
            r.pages_fetched == 0,
            r.records_parsed == 0,
            r.inserted == 0,
            r.updated == 0,
            r.cancelled == 0,
            r.unchanged == 0,
    {
        SourceRunReport {
            source_key: String::new(),
            pages_fetched: 0,
            records_parsed: 0,
            inserted: 0,
            updated: 0,
            cancelled: 0,
            unchanged: 0,
        }
    }
}

} // verus!
