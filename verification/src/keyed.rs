//! A map from strings to values that keeps its keys in ascending order.

use vstd::prelude::*;
use crate::text::{
    chars_less, chars_of, lemma_str_lt_asymmetric, lemma_str_lt_irreflexive, lemma_str_lt_total,
    str_lt, views,
};

verus! {

/// Each key sorts strictly before every later one.
pub open spec fn strictly_ascending(keys: Seq<Seq<char>>) -> bool {
    forall|i: int, j: int| 0 <= i < j < keys.len() ==> str_lt(#[trigger] keys[i], #[trigger] keys[j])
}

/// In a strictly ascending sequence a key stands at one index only.
pub proof fn lemma_ascending_unique(keys: Seq<Seq<char>>, i: int, j: int)
    requires
        strictly_ascending(keys),
        0 <= i < keys.len(),
        0 <= j < keys.len(),
        keys[i] == keys[j],
    ensures
        i == j,
{
    lemma_str_lt_irreflexive(keys[i]);
}

/// The index at which `key` stands.
pub open spec fn index_in(keys: Seq<Seq<char>>, key: Seq<char>) -> int {
    choose|i: int| 0 <= i < keys.len() && keys[i] == key
}

/// The map that two parallel sequences of keys and values describe.
pub open spec fn map_of<V>(keys: Seq<Seq<char>>, values: Seq<V>) -> Map<Seq<char>, V> {
    Map::new(|k: Seq<char>| keys.contains(k), |k: Seq<char>| values[index_in(keys, k)])
}

pub proof fn lemma_map_of_at<V>(keys: Seq<Seq<char>>, values: Seq<V>, i: int)
    requires
        strictly_ascending(keys),
        keys.len() == values.len(),
        0 <= i < keys.len(),
    ensures
        map_of(keys, values).contains_key(keys[i]),
        map_of(keys, values)[keys[i]] == values[i],
        index_in(keys, keys[i]) == i,
{
    let j = index_in(keys, keys[i]);
    lemma_ascending_unique(keys, i, j);
}

/// Where `key` stands in `keys`, or where it would have to be put.
pub open spec fn slot_of(keys: Seq<Seq<char>>, key: Seq<char>, slot: int) -> bool {
    &&& 0 <= slot <= keys.len()
    &&& forall|j: int| 0 <= j < slot ==> str_lt(#[trigger] keys[j], key)
    &&& forall|j: int| slot <= j < keys.len() ==> str_lt(key, #[trigger] keys[j])
}

pub proof fn lemma_slot_absent(keys: Seq<Seq<char>>, key: Seq<char>, slot: int)
    requires
        slot_of(keys, key, slot),
    ensures
        !keys.contains(key),
{
    if keys.contains(key) {
        let j = choose|j: int| 0 <= j < keys.len() && keys[j] == key;
        lemma_str_lt_irreflexive(key);
    }
}

pub proof fn lemma_insert_ascending(keys: Seq<Seq<char>>, key: Seq<char>, slot: int)
    requires
        strictly_ascending(keys),
        slot_of(keys, key, slot),
    ensures
        strictly_ascending(keys.insert(slot, key)),
{
    let after = keys.insert(slot, key);
    assert forall|i: int, j: int| 0 <= i < j < after.len() implies str_lt(
        #[trigger] after[i],
        #[trigger] after[j],
    ) by {
        if i < slot {
            assert(after[i] == keys[i]);
        } else if i > slot {
            assert(after[i] == keys[i - 1]);
        }
        if j < slot {
            assert(after[j] == keys[j]);
        } else if j > slot {
            assert(after[j] == keys[j - 1]);
        }
    }
}

pub proof fn lemma_insert_set(keys: Seq<Seq<char>>, key: Seq<char>, slot: int)
    requires
        0 <= slot <= keys.len(),
    ensures
        keys.insert(slot, key).to_set() == keys.to_set().insert(key),
{
    let after = keys.insert(slot, key);
    assert forall|k: Seq<char>| after.contains(k) <==> (keys.contains(k) || k == key) by {
        if after.contains(k) {
            let i = choose|i: int| 0 <= i < after.len() && after[i] == k;
            if i < slot {
                assert(keys[i] == k);
            } else if i > slot {
                assert(keys[i - 1] == k);
            }
        }
        if keys.contains(k) {
            let i = choose|i: int| 0 <= i < keys.len() && keys[i] == k;
            if i < slot {
                assert(after[i] == k);
            } else {
                assert(after[i + 1] == k);
            }
        }
        if k == key {
            assert(after[slot] == k);
        }
    }
    assert(after.to_set() =~= keys.to_set().insert(key));
}

pub proof fn lemma_insert_map<V>(
    keys: Seq<Seq<char>>,
    values: Seq<V>,
    key: Seq<char>,
    value: V,
    slot: int,
)
    requires
        strictly_ascending(keys),
        keys.len() == values.len(),
        slot_of(keys, key, slot),
    ensures
        map_of(keys.insert(slot, key), values.insert(slot, value)) == map_of(keys, values).insert(
            key,
            value,
        ),
{
    let keys2 = keys.insert(slot, key);
    let values2 = values.insert(slot, value);
    let left = map_of(keys2, values2);
    let right = map_of(keys, values).insert(key, value);
    lemma_insert_ascending(keys, key, slot);
    lemma_slot_absent(keys, key, slot);
    assert forall|k: Seq<char>| left.contains_key(k) == right.contains_key(k) by {
        if keys2.contains(k) {
            let i = choose|i: int| 0 <= i < keys2.len() && keys2[i] == k;
            if i < slot {
                assert(keys[i] == k);
            } else if i > slot {
                assert(keys[i - 1] == k);
            }
        }
        if keys.contains(k) {
            let i = choose|i: int| 0 <= i < keys.len() && keys[i] == k;
            if i < slot {
                assert(keys2[i] == k);
            } else {
                assert(keys2[i + 1] == k);
            }
        }
        if k == key {
            assert(keys2[slot] == k);
        }
    }
    assert forall|k: Seq<char>| left.contains_key(k) implies left[k] == right[k] by {
        let i = index_in(keys2, k);
        if i == slot {
        } else if i < slot {
            assert(keys[i] == k);
            lemma_map_of_at(keys, values, i);
        } else {
            assert(keys[i - 1] == k);
            lemma_map_of_at(keys, values, i - 1);
        }
    }
    assert(left =~= right);
}

pub proof fn lemma_update_map<V>(keys: Seq<Seq<char>>, values: Seq<V>, i: int, value: V)
    requires
        strictly_ascending(keys),
        keys.len() == values.len(),
        0 <= i < keys.len(),
    ensures
        map_of(keys, values.update(i, value)) == map_of(keys, values).insert(keys[i], value),
{
    let left = map_of(keys, values.update(i, value));
    let right = map_of(keys, values).insert(keys[i], value);
    assert forall|k: Seq<char>| left.contains_key(k) implies left[k] == right[k] by {
        let j = index_in(keys, k);
        assert(keys.contains(k));
        assert(0 <= j < keys.len() && keys[j] == k);
        if j != i {
            if keys[i] == k {
                lemma_ascending_unique(keys, i, j);
            }
            lemma_map_of_at(keys, values, j);
        }
    }
    assert forall|k: Seq<char>| left.contains_key(k) == right.contains_key(k) by {
        if k == keys[i] {
            assert(keys.contains(k));
        }
    }
    assert(left =~= right);
}

/// `keys` with `key` put at its place, unless it is there already.
pub open spec fn with_key(keys: Seq<Seq<char>>, key: Seq<char>) -> Seq<Seq<char>> {
    if keys.contains(key) {
        keys
    } else {
        keys.insert(choose|i: int| slot_of(keys, key, i), key)
    }
}

/// The strings of `list` in strictly ascending order, each one once.
pub open spec fn sorted_set(list: Seq<Seq<char>>) -> Seq<Seq<char>>
    decreases list.len(),
{
    if list.len() == 0 {
        Seq::<Seq<char>>::empty()
    } else {
        with_key(sorted_set(list.drop_last()), list.last())
    }
}

/// In a strictly ascending sequence every key has a slot or a place.
pub proof fn lemma_slot_exists(keys: Seq<Seq<char>>, key: Seq<char>)
    requires
        strictly_ascending(keys),
        !keys.contains(key),
    ensures
        exists|i: int| slot_of(keys, key, i),
    decreases keys.len(),
{
    if keys.len() == 0 {
        assert(slot_of(keys, key, 0));
    } else {
        let front = keys.drop_last();
        assert forall|i: int, j: int| 0 <= i < j < front.len() implies str_lt(
            #[trigger] front[i],
            #[trigger] front[j],
        ) by {
            assert(front[i] == keys[i] && front[j] == keys[j]);
        }
        if front.contains(key) {
            let j = choose|j: int| 0 <= j < front.len() && front[j] == key;
            assert(keys[j] == key);
        }
        lemma_slot_exists(front, key);
        let i = choose|i: int| slot_of(front, key, i);
        lemma_str_lt_total(keys.last(), key);
        assert(keys[keys.len() - 1] == keys.last());
        if str_lt(keys.last(), key) {
            assert forall|j: int| 0 <= j < keys.len() implies str_lt(#[trigger] keys[j], key) by {
                if j < keys.len() - 1 {
                    crate::text::lemma_str_lt_transitive(keys[j], keys.last(), key);
                }
            }
            assert(slot_of(keys, key, keys.len() as int));
        } else {
            assert(str_lt(key, keys.last()));
            assert forall|j: int| 0 <= j < i implies str_lt(#[trigger] keys[j], key) by {
                assert(front[j] == keys[j]);
            }
            assert forall|j: int| i <= j < keys.len() implies str_lt(key, #[trigger] keys[j]) by {
                if j < keys.len() - 1 {
                    assert(front[j] == keys[j]);
                }
            }
            assert(slot_of(keys, key, i));
        }
    }
}

/// `sorted_set` ascends strictly and holds exactly the strings of the list.
pub proof fn lemma_sorted_set(list: Seq<Seq<char>>)
    ensures
        strictly_ascending(sorted_set(list)),
        forall|k: Seq<char>| sorted_set(list).contains(k) <==> list.contains(k),
    decreases list.len(),
{
    if list.len() > 0 {
        let front = list.drop_last();
        let keys = sorted_set(front);
        let key = list.last();
        lemma_sorted_set(front);
        if !keys.contains(key) {
            lemma_slot_exists(keys, key);
            let slot = choose|i: int| slot_of(keys, key, i);
            lemma_insert_ascending(keys, key, slot);
        }
        let after = sorted_set(list);
        assert forall|k: Seq<char>| after.contains(k) <==> list.contains(k) by {
            if list.contains(k) {
                let j = choose|j: int| 0 <= j < list.len() && list[j] == k;
                if j < list.len() - 1 {
                    assert(front[j] == k);
                    assert(front.contains(k));
                }
                if keys.contains(k) && !keys.contains(key) {
                    let slot = choose|i: int| slot_of(keys, key, i);
                    let at = choose|i: int| 0 <= i < keys.len() && keys[i] == k;
                    if at < slot {
                        assert(after[at] == k);
                    } else {
                        assert(after[at + 1] == k);
                    }
                }
                if k == key && !keys.contains(key) {
                    let slot = choose|i: int| slot_of(keys, key, i);
                    assert(after[slot] == k);
                }
            }
            if after.contains(k) {
                let j = choose|j: int| 0 <= j < after.len() && after[j] == k;
                if keys.contains(key) {
                    assert(keys.contains(k));
                } else {
                    let slot = choose|i: int| slot_of(keys, key, i);
                    if j < slot {
                        assert(keys[j] == k);
                    } else if j > slot {
                        assert(keys[j - 1] == k);
                    }
                }
                if keys.contains(k) {
                    assert(front.contains(k));
                    let j2 = choose|j2: int| 0 <= j2 < front.len() && front[j2] == k;
                    assert(list[j2] == k);
                } else {
                    assert(list[list.len() - 1] == k);
                }
            }
        }
    }
}

/// A map from strings to values of type `V`, walked in ascending order of
/// its keys.
#[derive(Clone, Debug)]
pub struct StrMap<V> {
    names: Vec<String>,
    items: Vec<V>,
}

impl<V> StrMap<V> {
    /// The keys, in the order in which the map is walked.
    pub closed spec fn keys(&self) -> Seq<Seq<char>> {
        views(self.names@)
    }

    /// The values, each at the index of its key.
    pub closed spec fn values(&self) -> Seq<V> {
        self.items@
    }

    /// Keys and values pair up, and the keys ascend strictly.
    pub open spec fn wf(&self) -> bool {
        &&& self.keys().len() == self.values().len()
        &&& strictly_ascending(self.keys())
    }

    /// The map from each key to its value.
    pub open spec fn map(&self) -> Map<Seq<char>, V> {
        map_of(self.keys(), self.values())
    }

    pub open spec fn contains(&self, key: Seq<char>) -> bool {
        self.keys().contains(key)
    }

    /// The value under `key`, if the map has it.
    pub open spec fn lookup(&self, key: Seq<char>) -> Option<V> {
        if self.contains(key) {
            Some(self.map()[key])
        } else {
            None
        }
    }

    pub fn new() -> (m: Self)
        ensures
            m.wf(),
            m.keys() == Seq::<Seq<char>>::empty(),
            m.values() == Seq::<V>::empty(),
            m.map() == Map::<Seq<char>, V>::empty(),
    {
        let m = StrMap { names: Vec::new(), items: Vec::new() };
        assert(m.keys() =~= Seq::<Seq<char>>::empty());
        assert(m.map() =~= Map::<Seq<char>, V>::empty());
        m
    }

    pub fn len(&self) -> (n: usize)
        requires
            self.wf(),
        ensures
            n == self.keys().len(),
            n == self.values().len(),
    {
        self.names.len()
    }

    pub fn is_empty(&self) -> (r: bool)
        requires
            self.wf(),
        ensures
            r == (self.keys().len() == 0),
    {
        self.names.len() == 0
    }

    /// The key at index `i` of the walk.
    pub fn key_at(&self, i: usize) -> (k: &String)
        requires
            self.wf(),
            i < self.keys().len(),
        ensures
            k@ == self.keys()[i as int],
    {
        &self.names[i]
    }

    /// The value at index `i` of the walk.
    pub fn value_at(&self, i: usize) -> (v: &V)
        requires
            self.wf(),
            i < self.keys().len(),
        ensures
            *v == self.values()[i as int],
    {
        &self.items[i]
    }

    /// The index of `key` (`Ok`), or the index at which it would be put
    /// (`Err`).
    pub fn position(&self, key: &str) -> (r: Result<usize, usize>)
        requires
            self.wf(),
        ensures
            match r {
                Ok(i) => i < self.keys().len() && self.keys()[i as int] == key@,
                Err(i) => slot_of(self.keys(), key@, i as int) && !self.contains(key@),
            },
    {
        let needle = chars_of(key);
        let mut i: usize = 0;
        while i < self.names.len()
            invariant
                i <= self.names.len(),
                self.wf(),
                needle@ == key@,
                forall|j: int| 0 <= j < i ==> str_lt(#[trigger] self.keys()[j], key@),
            decreases self.names.len() - i,
        {
            let current = chars_of(self.names[i].as_str());
            assert(current@ == self.keys()[i as int]);
            if !chars_less(&current, &needle) {
                if !chars_less(&needle, &current) {
                    proof {
                        lemma_str_lt_total(current@, needle@);
                    }
                    return Ok(i);
                }
                proof {
                    assert forall|j: int| i <= j < self.keys().len() implies str_lt(
                        key@,
                        #[trigger] self.keys()[j],
                    ) by {
                        if j > i {
                            crate::text::lemma_str_lt_transitive(
                                key@,
                                self.keys()[i as int],
                                self.keys()[j],
                            );
                        }
                    }
                    lemma_slot_absent(self.keys(), key@, i as int);
                }
                return Err(i);
            }
            i += 1;
        }
        proof {
            lemma_slot_absent(self.keys(), key@, i as int);
        }
        Err(i)
    }

    pub fn contains_key(&self, key: &str) -> (r: bool)
        requires
            self.wf(),
        ensures
            r == self.contains(key@),
    {
        self.position(key).is_ok()
    }

    /// The value under `key`, if the map has it.
    pub fn get(&self, key: &str) -> (r: Option<&V>)
        requires
            self.wf(),
        ensures
            match r {
                Some(v) => self.lookup(key@) == Some(*v),
                None => self.lookup(key@) is None,
            },
    {
        match self.position(key) {
            Ok(i) => {
                proof {
                    lemma_map_of_at(self.keys(), self.values(), i as int);
                }
                Some(&self.items[i])
            },
            Err(_) => None,
        }
    }

    /// Puts `value` under `key`, in place of the value that was there, if any.
    pub fn insert(&mut self, key: String, value: V)
        requires
            old(self).wf(),
        ensures
            final(self).wf(),
            final(self).map() == old(self).map().insert(key@, value),
            final(self).keys().to_set() == old(self).keys().to_set().insert(key@),
            match old(self).position_of(key@) {
                Ok(i) => {
                    &&& final(self).keys() == old(self).keys()
                    &&& final(self).values() == old(self).values().update(i, value)
                },
                Err(i) => {
                    &&& final(self).keys() == old(self).keys().insert(i, key@)
                    &&& final(self).values() == old(self).values().insert(i, value)
                },
            },
    {
        let ghost before = *self;
        match self.position(key.as_str()) {
            Ok(i) => {
                proof {
                    lemma_update_map(before.keys(), before.values(), i as int, value);
                    lemma_map_of_at(before.keys(), before.values(), i as int);
                }
                self.items.set(i, value);
                assert(self.keys().to_set() =~= before.keys().to_set().insert(key@)) by {
                    assert(before.keys().contains(key@));
                }
            },
            Err(i) => {
                proof {
                    lemma_insert_ascending(before.keys(), key@, i as int);
                    lemma_insert_map(before.keys(), before.values(), key@, value, i as int);
                    before.lemma_slot_is_position(key@, i as int);
                }
                self.names.insert(i, key);
                self.items.insert(i, value);
                assert(self.keys() =~= before.keys().insert(i as int, key@));
                proof {
                    lemma_insert_set(before.keys(), key@, i as int);
                }
            },
        }
    }

    /// Replaces the value at index `i` of the walk.
    pub fn set_value_at(&mut self, i: usize, value: V)
        requires
            old(self).wf(),
            i < old(self).keys().len(),
        ensures
            final(self).wf(),
            final(self).keys() == old(self).keys(),
            final(self).values() == old(self).values().update(i as int, value),
            final(self).map() == old(self).map().insert(old(self).keys()[i as int], value),
    {
        proof {
            lemma_update_map(self.keys(), self.values(), i as int, value);
        }
        self.items.set(i, value);
    }

    /// The keys of the map, in walking order.
    pub fn into_keys(self) -> (out: Vec<String>)
        requires
            self.wf(),
        ensures
            views(out@) == self.keys(),
    {
        self.names
    }

    /// Where `key` stands among the keys (`Ok`), or where it would be put
    /// (`Err`).
    pub open spec fn position_of(&self, key: Seq<char>) -> Result<int, int> {
        if self.contains(key) {
            Ok(index_in(self.keys(), key))
        } else {
            Err(choose|i: int| slot_of(self.keys(), key, i))
        }
    }

    pub proof fn lemma_slot_is_position(&self, key: Seq<char>, slot: int)
        requires
            self.wf(),
            slot_of(self.keys(), key, slot),
        ensures
            self.position_of(key) == Err::<int, int>(slot),
    {
        lemma_slot_absent(self.keys(), key, slot);
        let other = choose|i: int| slot_of(self.keys(), key, i);
        if other < slot {
            lemma_str_lt_asymmetric(self.keys()[other], key);
        } else if slot < other {
            lemma_str_lt_asymmetric(self.keys()[slot], key);
        }
    }
}

/// The map from every key of a string map to the characters of its value.
pub open spec fn text_map(m: StrMap<String>) -> Map<Seq<char>, Seq<char>> {
    Map::new(|k: Seq<char>| m.contains(k), |k: Seq<char>| m.map()[k]@)
}

/// What `insert` and `new` do to the `text_map` of a string map.
pub proof fn lemma_text_map_insert(before: StrMap<String>, after: StrMap<String>, key: Seq<char>, value: String)
    requires
        after.map() == before.map().insert(key, value),
        after.keys().to_set() == before.keys().to_set().insert(key),
    ensures
        text_map(after) == text_map(before).insert(key, value@),
{
    assert forall|k: Seq<char>| after.contains(k) <==> (before.contains(k) || k == key) by {
        assert(after.keys().to_set().contains(k) == after.keys().contains(k));
        assert(before.keys().to_set().contains(k) == before.keys().contains(k));
    }
    assert(text_map(after) =~= text_map(before).insert(key, value@));
}

pub proof fn lemma_text_map_empty(m: StrMap<String>)
    requires
        m.keys().len() == 0,
    ensures
        text_map(m) == Map::<Seq<char>, Seq<char>>::empty(),
{
    assert(text_map(m) =~= Map::<Seq<char>, Seq<char>>::empty());
}

/// Puts a value into a string map and says what that does to its text map.
pub fn put(m: &mut StrMap<String>, key: String, value: String)
    requires
        old(m).wf(),
    ensures
        final(m).wf(),
        text_map(*final(m)) == text_map(*old(m)).insert(key@, value@),
{
    let ghost before = *m;
    m.insert(key, value);
    proof {
        lemma_text_map_insert(before, *m, key@, value);
    }
}

/// The value under a key of a string map.
pub fn value_of(m: &StrMap<String>, key: &str) -> (r: Option<String>)
    requires
        m.wf(),
    ensures
        crate::text::opt_view(r) == (if text_map(*m).contains_key(key@) {
            Some(text_map(*m)[key@])
        } else {
            None
        }),
{
    match m.get(key) {
        Some(v) => Some(v.clone()),
        None => None,
    }
}

/// The strings of `list` in ascending order, each one once.
pub fn sort_dedup(list: &Vec<String>) -> (out: Vec<String>)
    ensures
        views(out@) == sorted_set(views(list@)),
{
    let mut set: StrMap<()> = StrMap::new();
    let mut i: usize = 0;
    assert(views(list@).take(0) =~= Seq::<Seq<char>>::empty());
    while i < list.len()
        invariant
            i <= list.len(),
            set.wf(),
            set.keys() == sorted_set(views(list@).take(i as int)),
        decreases list.len() - i,
    {
        let ghost before = set.keys();
        set.insert(list[i].clone(), ());
        i += 1;
        proof {
            let now = views(list@).take(i as int);
            assert(now.drop_last() =~= views(list@).take(i - 1));
            assert(now.last() == list@[i - 1]@);
        }
    }
    assert(views(list@).take(list.len() as int) =~= views(list@));
    set.into_keys()
}

} // verus!
