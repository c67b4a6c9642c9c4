//! Per-host storage of huddle records: an ordered bounded collection
//! for each host, kept sorted by huddle identifier so lookups can use
//! binary search.

use std::collections::HashMap;

use vstd::prelude::*;

use crate::types::Huddle;

verus! {

broadcast use vstd::std_specs::hash::group_hash_axioms;

/// Whether the huddles of `s` are strictly ordered by identifier.
pub open spec fn ids_sorted(s: Seq<Huddle>) -> bool {
    forall|i: int, j: int| 0 <= i < j < s.len() ==> s[i].id < s[j].id
}

/// Whether `s` holds a huddle with identifier `id`.
pub open spec fn has_huddle(s: Seq<Huddle>, id: u64) -> bool {
    exists|i: int| 0 <= i < s.len() && s[i].id == id
}

/// The index of the huddle with identifier `id`; meaningful only when
/// `has_huddle(s, id)` holds (it is then unique, since `s` is sorted).
pub open spec fn huddle_idx(s: Seq<Huddle>, id: u64) -> int {
    choose|i: int| 0 <= i < s.len() && s[i].id == id
}

/// In a sorted collection, an identifier occurs at most once.
pub proof fn lemma_sorted_id_unique(s: Seq<Huddle>, i: int, j: int)
    requires
        ids_sorted(s),
        0 <= i < s.len(),
        0 <= j < s.len(),
        s[i].id == s[j].id,
    ensures
        i == j,
{
}

/// Replacing a huddle by one with the same identifier keeps the
/// collection sorted.
pub proof fn lemma_sorted_update(s: Seq<Huddle>, i: int, h: Huddle)
    requires
        ids_sorted(s),
        0 <= i < s.len(),
        h.id == s[i].id,
    ensures
        ids_sorted(s.update(i, h)),
{
}

/// Appending a huddle with an identifier above all present ones keeps
/// the collection sorted.
pub proof fn lemma_sorted_push(s: Seq<Huddle>, h: Huddle)
    requires
        ids_sorted(s),
        forall|j: int| 0 <= j < s.len() ==> s[j].id < h.id,
    ensures
        ids_sorted(s.push(h)),
{
}

/// Per-host ordered bounded collections of huddles.
pub struct HuddleRegistry {
    /// Huddles per host; an absent key means no huddles at all.
    pub map: HashMap<u64, Vec<Huddle>>,
    /// The maximum number of huddles one host may own.
    pub max_per_host: usize,
}

impl HuddleRegistry {
    /// The huddles of `host`, empty for hosts never seen.
    pub open spec fn of(self, host: u64) -> Seq<Huddle> {
        if self.map@.contains_key(host) {
            self.map@[host]@
        } else {
            Seq::empty()
        }
    }

    /// Whether `host` has a stored (possibly empty) collection.
    pub open spec fn stored(self, host: u64) -> bool {
        self.map@.contains_key(host)
    }

    /// Every host's collection is sorted by identifier and within the
    /// per-host bound.
    pub open spec fn wf(self) -> bool {
        forall|h: u64|
            ids_sorted(#[trigger] self.of(h)) && self.of(h).len() <= self.max_per_host
    }

    /// An empty registry with the given per-host bound.
    pub fn new(max_per_host: usize) -> (r: HuddleRegistry)
        ensures
            r.wf(),
            r.max_per_host == max_per_host,
            forall|h: u64| (#[trigger] r.of(h)) == Seq::<Huddle>::empty(),
            forall|h: u64| !(#[trigger] r.stored(h)),
    {
        HuddleRegistry { map: HashMap::new(), max_per_host }
    }

    /// How many huddles `host` owns.
    pub fn len_of(&self, host: u64) -> (n: usize)
        ensures
            n == self.of(host).len(),
    {
        match self.map.get(&host) {
            Some(v) => v.len(),
            None => 0,
        }
    }

    /// Binary search for the huddle with identifier `id` under `host`.
    pub fn find_pos(&self, host: u64, id: u64) -> (r: Option<usize>)
        requires
            self.wf(),
        ensures
            match r {
                Some(i) => {
                    &&& has_huddle(self.of(host), id)
                    &&& i == huddle_idx(self.of(host), id)
                    &&& i < self.of(host).len()
                    &&& self.of(host)[i as int].id == id
                },
                None => !has_huddle(self.of(host), id),
            },
    {
        let v: &Vec<Huddle> = match self.map.get(&host) {
            Some(v) => v,
            None => {
                return None;
            },
        };
        let ghost s = self.of(host);
        let mut lo: usize = 0;
        let mut hi: usize = v.len();
        while lo < hi
            invariant
                lo <= hi <= v.len(),
                v@ == s,
                s == self.of(host),
                ids_sorted(s),
                forall|j: int| 0 <= j < lo ==> s[j].id < id,
                forall|j: int| hi <= j < s.len() ==> s[j].id > id,
            decreases hi - lo,
        {
            let mid: usize = lo + (hi - lo) / 2;
            let probe: u64 = v[mid].id;
            if probe < id {
                lo = mid + 1;
            } else if probe > id {
                hi = mid;
            } else {
                proof {
                    assert(s[mid as int].id == id);
                    assert(has_huddle(s, id));
                    let w = huddle_idx(s, id);
                    assert(0 <= w < s.len() && s[w].id == id);
                    lemma_sorted_id_unique(s, mid as int, w);
                }
                return Some(mid);
            }
        }
        None
    }

    /// The huddle at position `i` under `host`.
    pub fn get_at(&self, host: u64, i: usize) -> (h: Huddle)
        requires
            i < self.of(host).len(),
        ensures
            h == self.of(host)[i as int],
    {
        let v: &Vec<Huddle> = match self.map.get(&host) {
            Some(v) => v,
            None => {
                proof {
                    assert(false);
                }
                return Huddle {
                    id: 0,
                    timestamp: 0,
                    guest: None,
                    value: 0,
                    status: crate::types::HuddleStatus::Created,
                    stars: 0,
                };
            },
        };
        v[i]
    }

    /// Replaces the huddle at position `i` under `host` by `h`, which
    /// must keep its identifier.
    pub fn set_at(&mut self, host: u64, i: usize, h: Huddle)
        requires
            old(self).wf(),
            i < old(self).of(host).len(),
            h.id == old(self).of(host)[i as int].id,
        ensures
            final(self).wf(),
            final(self).max_per_host == old(self).max_per_host,
            final(self).of(host) == old(self).of(host).update(i as int, h),
            forall|x: u64| x != host ==> final(self).of(x) == old(self).of(x),
            forall|x: u64| final(self).stored(x) == old(self).stored(x),
    {
        let mut v: Vec<Huddle> = match self.map.remove(&host) {
            Some(v) => v,
            None => {
                proof {
                    assert(false);
                }
                Vec::new()
            },
        };
        v.set(i, h);
        self.map.insert(host, v);
        proof {
            assert(self.of(host) =~= old(self).of(host).update(i as int, h));
            lemma_sorted_update(old(self).of(host), i as int, h);
            assert forall|x: u64|
                ids_sorted(#[trigger] self.of(x)) && self.of(x).len()
                    <= self.max_per_host by {
                if x != host {
                    assert(self.of(x) == old(self).of(x));
                }
            }
        }
    }

    /// Appends `h` under `host`; its identifier must lie above all of
    /// the host's present ones, and the host must have room.
    pub fn append(&mut self, host: u64, h: Huddle)
        requires
            old(self).wf(),
            old(self).of(host).len() < old(self).max_per_host,
            forall|j: int| 0 <= j < old(self).of(host).len() ==> old(self).of(host)[j].id < h.id,
        ensures
            final(self).wf(),
            final(self).max_per_host == old(self).max_per_host,
            final(self).of(host) == old(self).of(host).push(h),
            final(self).stored(host),
            forall|x: u64| x != host ==> final(self).of(x) == old(self).of(x),
            forall|x: u64| x != host ==> final(self).stored(x) == old(self).stored(x),
    {
        let mut v: Vec<Huddle> = match self.map.remove(&host) {
            Some(v) => v,
            None => Vec::new(),
        };
        v.push(h);
        self.map.insert(host, v);
        proof {
            assert(self.of(host) =~= old(self).of(host).push(h));
            lemma_sorted_push(old(self).of(host), h);
            assert forall|x: u64|
                ids_sorted(#[trigger] self.of(x)) && self.of(x).len()
                    <= self.max_per_host by {
                if x != host {
                    assert(self.of(x) == old(self).of(x));
                }
            }
        }
    }
}

} // verus!
