//! The persisted watch-history map of the library document: one record per
//! media id, upserted whole, looked up with a zero-valued default.

use vstd::prelude::*;

use crate::text::str_eq;
use vstd::pervasive::VecAdditionalExecFns;

verus! {

/// One watch-history record. The two duration fields carry the bit patterns
/// of the client's binary64 seconds values; the record only stores them.
#[derive(Clone, Debug, PartialEq)]
pub struct WatchHistory {
    pub media_id: String,
    pub watched_duration_bits: u64,
    pub total_duration_bits: u64,
    pub last_watched_timestamp: u64,
}

/// The index of the first record with the given media id, or -1.
pub open spec fn spec_find(s: Seq<WatchHistory>, id: Seq<char>) -> int
    decreases s.len(),
{
    if s.len() == 0 {
        -1
    } else if s[0].media_id@ == id {
        0
    } else {
        let r = spec_find(s.drop_first(), id);
        if r < 0 {
            -1
        } else {
            r + 1
        }
    }
}

/// The map after an upsert: the first record with the same media id replaced
/// in place, or the record appended if the id is new.
pub open spec fn spec_upsert(s: Seq<WatchHistory>, w: WatchHistory) -> Seq<WatchHistory> {
    let i = spec_find(s, w.media_id@);
    if i >= 0 {
        s.update(i, w)
    } else {
        s.push(w)
    }
}

proof fn lemma_find_bounds(s: Seq<WatchHistory>, id: Seq<char>)
    ensures
        -1 <= spec_find(s, id) < s.len(),
        spec_find(s, id) >= 0 ==> s[spec_find(s, id)].media_id@ == id,
        spec_find(s, id) >= 0 ==> forall|j: int| 0 <= j < spec_find(s, id) ==> s[j].media_id@ != id,
        spec_find(s, id) < 0 ==> forall|j: int| 0 <= j < s.len() ==> s[j].media_id@ != id,
    decreases s.len(),
{
    if s.len() != 0 && s[0].media_id@ != id {
        lemma_find_bounds(s.drop_first(), id);
        let r = spec_find(s, id);
        if r >= 0 {
            assert forall|j: int| 0 <= j < r implies s[j].media_id@ != id by {
                if j > 0 {
                    assert(s.drop_first()[j - 1] == s[j]);
                }
            }
        } else {
            assert forall|j: int| 0 <= j < s.len() implies s[j].media_id@ != id by {
                if j > 0 {
                    assert(s.drop_first()[j - 1] == s[j]);
                }
            }
        }
    }
}

proof fn lemma_find_agrees(s1: Seq<WatchHistory>, s2: Seq<WatchHistory>, id: Seq<char>)
    requires
        s1.len() == s2.len(),
        forall|j: int| 0 <= j < s1.len() ==> s1[j].media_id@ == s2[j].media_id@,
    ensures
        spec_find(s1, id) == spec_find(s2, id),
    decreases s1.len(),
{
    if s1.len() != 0 {
        assert(forall|j: int|
            0 <= j < s1.drop_first().len() ==> #[trigger] s1.drop_first()[j] == s1[j + 1]);
        assert(forall|j: int|
            0 <= j < s2.drop_first().len() ==> #[trigger] s2.drop_first()[j] == s2[j + 1]);
        lemma_find_agrees(s1.drop_first(), s2.drop_first(), id);
    }
}

proof fn lemma_find_push(s: Seq<WatchHistory>, w: WatchHistory)
    requires
        spec_find(s, w.media_id@) < 0,
    ensures
        spec_find(s.push(w), w.media_id@) == s.len(),
    decreases s.len(),
{
    lemma_find_bounds(s, w.media_id@);
    if s.len() == 0 {
        assert(s.push(w)[0] == w);
    } else {
        assert(s.push(w)[0] == s[0]);
        assert(s.push(w).drop_first() =~= s.drop_first().push(w));
        assert(forall|j: int|
            0 <= j < s.drop_first().len() ==> #[trigger] s.drop_first()[j] == s[j + 1]);
        lemma_find_push(s.drop_first(), w);
    }
}

/// Law: upserting the same record twice gives the same map as upserting it
/// once.
pub proof fn lemma_upsert_idempotent(s: Seq<WatchHistory>, w: WatchHistory)
    ensures
        spec_upsert(spec_upsert(s, w), w) == spec_upsert(s, w),
{
    let id = w.media_id@;
    let i = spec_find(s, id);
    lemma_find_bounds(s, id);
    if i >= 0 {
        let s1 = s.update(i, w);
        assert(forall|j: int| 0 <= j < s.len() && j != i ==> s.update(i, w)[j] == s[j]);
        assert(s.update(i, w)[i] == w);
        assert(forall|j: int|
            0 <= j < s.len() ==> #[trigger] s.update(i, w)[j].media_id@ == s[j].media_id@);
        lemma_find_agrees(s, s.update(i, w), id);
        assert(spec_find(s1, id) == i);
        assert(s1.update(i, w) =~= s1);
    } else {
        let s1 = s.push(w);
        lemma_find_push(s, w);
        assert(spec_find(s1, id) == s.len());
        assert(s1.update(s.len() as int, w) =~= s1);
    }
}

/// The watch-history map: records in insertion order, one per media id.
#[derive(Debug)]
pub struct WatchMap {
    pub entries: Vec<WatchHistory>,
}

impl WatchMap {
    /// One record per media id.
    pub open spec fn wf(self) -> bool {
        forall|i: int, j: int|
            0 <= i < j < self.entries@.len() ==> self.entries@[i].media_id@
                != self.entries@[j].media_id@
    }

    /// An empty map.
    pub fn new() -> (r: WatchMap)
        ensures
            r.entries@.len() == 0,
            r.wf(),
    {
        WatchMap { entries: Vec::new() }
    }

    fn find(&self, media_id: &str) -> (r: Option<usize>)
        ensures
            match r {
                Option::Some(i) => i < self.entries@.len() && spec_find(self.entries@, media_id@)
                    == i as int,
                Option::None => spec_find(self.entries@, media_id@) < 0,
            },
    {
        proof {
            lemma_find_bounds(self.entries@, media_id@);
        }
        let mut i: usize = 0;
        while i < self.entries.len()
            invariant
                i <= self.entries@.len(),
                forall|j: int| 0 <= j < i ==> self.entries@[j].media_id@ != media_id@,
                -1 <= spec_find(self.entries@, media_id@) < self.entries@.len(),
                spec_find(self.entries@, media_id@) >= 0 ==> self.entries@[spec_find(
                    self.entries@,
                    media_id@,
                )].media_id@ == media_id@,
                spec_find(self.entries@, media_id@) < 0 ==> forall|j: int|
                    0 <= j < self.entries@.len() ==> self.entries@[j].media_id@ != media_id@,
                spec_find(self.entries@, media_id@) >= 0 ==> forall|j: int|
                    0 <= j < spec_find(self.entries@, media_id@) ==> self.entries@[j].media_id@
                        != media_id@,
            decreases self.entries@.len() - i,
        {
            if str_eq(self.entries[i].media_id.as_str(), media_id) {
                return Some(i);
            }
            i = i + 1;
        }
        None
    }

    /// Inserts the record, replacing any record with the same media id.
    pub fn upsert(&mut self, w: WatchHistory)
        requires
            old(self).wf(),
        ensures
            final(self).wf(),
            final(self).entries@ == spec_upsert(old(self).entries@, w),
    {
        proof {
            lemma_find_bounds(self.entries@, w.media_id@);
        }
        let found = self.find(w.media_id.as_str());
        match found {
            Option::Some(i) => {
                let ghost olds = self.entries@;
                self.entries.set(i, w);
                proof {
                    assert(self.entries@ =~= olds.update(i as int, w));
                    assert forall|a: int, b: int|
                        0 <= a < b < self.entries@.len() implies self.entries@[a].media_id@
                        != self.entries@[b].media_id@ by {
                        assert(olds[a].media_id@ != olds[b].media_id@);
                        if a != i && b != i {
                        } else if a == i {
                            assert(self.entries@[a].media_id@ == olds[i as int].media_id@);
                        } else {
                            assert(self.entries@[b].media_id@ == olds[i as int].media_id@);
                        }
                    }
                }
            },
            Option::None => {
                let ghost olds = self.entries@;
                proof {
                    lemma_find_bounds(olds, w.media_id@);
                }
                self.entries.push(w);
                proof {
                    assert forall|a: int, b: int|
                        0 <= a < b < self.entries@.len() implies self.entries@[a].media_id@
                        != self.entries@[b].media_id@ by {
                        if b < olds.len() {
                            assert(olds[a].media_id@ != olds[b].media_id@);
                        } else {
                            assert(self.entries@[b] == w);
                            assert(olds[a].media_id@ != w.media_id@);
                        }
                    }
                }
            },
        }
    }

    /// The record for a media id, if the map holds one.
    pub fn get(&self, media_id: &str) -> (r: Option<&WatchHistory>)
        ensures
            match r {
                Option::Some(w) => {
                    &&& spec_find(self.entries@, media_id@) >= 0
                    &&& *w == self.entries@[spec_find(self.entries@, media_id@)]
                },
                Option::None => spec_find(self.entries@, media_id@) < 0,
            },
    {
        let found = self.find(media_id);
        match found {
            Option::Some(i) => Some(&self.entries[i]),
            Option::None => None,
        }
    }

    /// The record for a media id; a zero-valued record with that id when the
    /// map holds none.
    pub fn get_or_default(&self, media_id: &str) -> (r: WatchHistory)
        ensures
            spec_find(self.entries@, media_id@) >= 0 ==> r == self.entries@[spec_find(
                self.entries@,
                media_id@,
            )],
            spec_find(self.entries@, media_id@) < 0 ==> {
                &&& r.media_id@ == media_id@
                &&& r.watched_duration_bits == 0
                &&& r.total_duration_bits == 0
                &&& r.last_watched_timestamp == 0
            },
    {
        let found = self.find(media_id);
        match found {
            Option::Some(i) => {
                let e = &self.entries[i];
                WatchHistory {
                    media_id: e.media_id.clone(),
                    watched_duration_bits: e.watched_duration_bits,
                    total_duration_bits: e.total_duration_bits,
                    last_watched_timestamp: e.last_watched_timestamp,
                }
            },
            Option::None => WatchHistory {
                media_id: String::from_str(media_id),
                watched_duration_bits: 0,
                total_duration_bits: 0,
                last_watched_timestamp: 0,
            },
        }
    }

    /// The number of records.
    pub fn len(&self) -> (r: usize)
        ensures
            r == self.entries@.len(),
    {
        self.entries.len()
    }
}

} // verus!
