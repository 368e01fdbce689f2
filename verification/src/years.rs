//! A set of years, walked in ascending order.

use vstd::prelude::*;

verus! {

/// A finite set of years, kept in ascending order.
#[derive(Clone, Debug)]
pub struct YearSet {
    years: Vec<i32>,
}

impl View for YearSet {
    type V = Set<i32>;

    closed spec fn view(&self) -> Set<i32> {
        self.years@.to_set()
    }
}

impl YearSet {
    /// The years in ascending order.
    pub closed spec fn seq(&self) -> Seq<i32> {
        self.years@
    }

    /// The years ascend strictly, and they are the members of the set.
    pub closed spec fn wf(&self) -> bool {
        forall|i: int, j: int| 0 <= i < j < self.years@.len() ==> self.years@[i] < self.years@[j]
    }

    pub proof fn lemma_seq(&self)
        requires
            self.wf(),
        ensures
            forall|i: int, j: int| 0 <= i < j < self.seq().len() ==> self.seq()[i] < self.seq()[j],
            forall|y: i32| self@.contains(y) <==> self.seq().contains(y),
    {
    }

    pub fn new() -> (s: YearSet)
        ensures
            s.wf(),
            s@ == Set::<i32>::empty(),
            s.seq() == Seq::<i32>::empty(),
    {
        let s = YearSet { years: Vec::new() };
        assert(s@ =~= Set::<i32>::empty());
        s
    }

    pub fn len(&self) -> (n: usize)
        ensures
            n == self.seq().len(),
    {
        self.years.len()
    }

    pub fn is_empty(&self) -> (r: bool)
        requires
            self.wf(),
        ensures
            r == (self@ == Set::<i32>::empty()),
            r == (self.seq().len() == 0),
    {
        proof {
            if self.years@.len() > 0 {
                assert(self.years@.contains(self.years@[0]));
                assert(self@.contains(self.years@[0]));
            } else {
                assert(self@ =~= Set::<i32>::empty());
            }
        }
        self.years.len() == 0
    }

    /// The year at index `i` of the ascending walk.
    pub fn year_at(&self, i: usize) -> (y: i32)
        requires
            i < self.seq().len(),
        ensures
            y == self.seq()[i as int],
            self@.contains(y),
    {
        assert(self.years@.contains(self.years@[i as int]));
        self.years[i]
    }

    pub fn contains(&self, year: i32) -> (r: bool)
        ensures
            r == self@.contains(year),
    {
        let mut i: usize = 0;
        while i < self.years.len()
            invariant
                i <= self.years.len(),
                forall|j: int| 0 <= j < i ==> self.years@[j] != year,
            decreases self.years.len() - i,
        {
            if self.years[i] == year {
                assert(self.years@.contains(year));
                return true;
            }
            i += 1;
        }
        false
    }

    /// Adds `year` to the set.
    pub fn insert(&mut self, year: i32)
        requires
            old(self).wf(),
        ensures
            final(self).wf(),
            final(self)@ == old(self)@.insert(year),
    {
        let ghost before = self.years@;
        let mut i: usize = 0;
        while i < self.years.len() && self.years[i] < year
            invariant
                i <= self.years.len(),
                self.years@ == before,
                forall|j: int| 0 <= j < i ==> self.years@[j] < year,
            decreases self.years.len() - i,
        {
            i += 1;
        }
        if i < self.years.len() && self.years[i] == year {
            assert(before.contains(year));
            assert(self@ =~= old(self)@.insert(year));
        } else {
            self.years.insert(i, year);
            let ghost after = self.years@;
            assert forall|a: int, b: int| 0 <= a < b < after.len() implies after[a] < after[b] by {
                if a < i {
                    assert(after[a] == before[a]);
                } else if a > i {
                    assert(after[a] == before[a - 1]);
                }
                if b < i {
                    assert(after[b] == before[b]);
                } else if b > i {
                    assert(after[b] == before[b - 1]);
                }
            }
            assert forall|y: i32| after.contains(y) <==> (before.contains(y) || y == year) by {
                if after.contains(y) {
                    let k = choose|k: int| 0 <= k < after.len() && after[k] == y;
                    if k < i {
                        assert(before[k] == y);
                    } else if k > i {
                        assert(before[k - 1] == y);
                    }
                }
                if before.contains(y) {
                    let k = choose|k: int| 0 <= k < before.len() && before[k] == y;
                    if k < i {
                        assert(after[k] == y);
                    } else {
                        assert(after[k + 1] == y);
                    }
                }
                if y == year {
                    assert(after[i as int] == y);
                }
            }
            assert(self@ =~= old(self)@.insert(year));
        }
    }

    /// Adds the year, if there is one.
    pub fn insert_opt(&mut self, year: Option<i32>)
        requires
            old(self).wf(),
        ensures
            final(self).wf(),
            final(self)@ == with_year(old(self)@, year),
    {
        match year {
            Some(y) => self.insert(y),
            None => {},
        }
    }
}

/// `years` with `year` added, if there is one.
pub open spec fn with_year(years: Set<i32>, year: Option<i32>) -> Set<i32> {
    match year {
        Some(y) => years.insert(y),
        None => years,
    }
}

} // verus!
