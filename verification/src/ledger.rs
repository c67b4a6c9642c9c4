//! Per-guest storage of bid records: an ordered bounded collection for
//! each guest, kept sorted by huddle identifier, with at most one bid
//! per huddle.
//!
//! The module also defines the sum of a guest's currently winning bid
//! values, which the engine keeps equal to the guest's reserved funds.

use std::collections::HashMap;

use vstd::prelude::*;

use crate::types::Bid;
use crate::types::BidStatus;

verus! {

broadcast use vstd::std_specs::hash::group_hash_axioms;

/// Whether the bids of `s` are strictly ordered by huddle identifier
/// (this also makes them unique per huddle).
pub open spec fn bids_sorted(s: Seq<Bid>) -> bool {
    forall|i: int, j: int| 0 <= i < j < s.len() ==> s[i].huddle < s[j].huddle
}

/// Whether `s` holds a bid for huddle `hid`.
pub open spec fn has_bid(s: Seq<Bid>, hid: u64) -> bool {
    exists|i: int| 0 <= i < s.len() && s[i].huddle == hid
}

/// The index of the bid for huddle `hid`; meaningful only when
/// `has_bid(s, hid)` holds (it is then unique, since `s` is sorted).
pub open spec fn bid_idx(s: Seq<Bid>, hid: u64) -> int {
    choose|i: int| 0 <= i < s.len() && s[i].huddle == hid
}

/// The bid of `s` for huddle `hid`, if any.
pub open spec fn bid_entry(s: Seq<Bid>, hid: u64) -> Option<Bid> {
    if has_bid(s, hid) {
        Some(s[bid_idx(s, hid)])
    } else {
        None
    }
}

/// What one bid contributes to its guest's reserved funds: its value
/// while it is winning, nothing otherwise.
pub open spec fn bid_contrib(b: Bid) -> int {
    if b.status is Winning {
        b.value as int
    } else {
        0
    }
}

/// The sum of the winning bid values of `s`.
pub open spec fn winning_total(s: Seq<Bid>) -> int
    decreases s.len(),
{
    if s.len() == 0 {
        0
    } else {
        winning_total(s.drop_last()) + bid_contrib(s.last())
    }
}

/// In a sorted collection, a huddle identifier occurs at most once.
pub proof fn lemma_sorted_bid_unique(s: Seq<Bid>, i: int, j: int)
    requires
        bids_sorted(s),
        0 <= i < s.len(),
        0 <= j < s.len(),
        s[i].huddle == s[j].huddle,
    ensures
        i == j,
{
}

/// Replacing a bid by one for the same huddle keeps the collection
/// sorted.
pub proof fn lemma_sorted_bid_update(s: Seq<Bid>, i: int, b: Bid)
    requires
        bids_sorted(s),
        0 <= i < s.len(),
        b.huddle == s[i].huddle,
    ensures
        bids_sorted(s.update(i, b)),
{
}

/// Inserting a bid at the position that splits the collection by
/// huddle identifier keeps it sorted.
pub proof fn lemma_sorted_bid_insert(s: Seq<Bid>, p: int, b: Bid)
    requires
        bids_sorted(s),
        0 <= p <= s.len(),
        forall|j: int| 0 <= j < p ==> s[j].huddle < b.huddle,
        forall|j: int| p <= j < s.len() ==> s[j].huddle > b.huddle,
    ensures
        bids_sorted(s.insert(p, b)),
{
    s.insert_ensures(p, b);
    let t = s.insert(p, b);
    assert forall|i: int, j: int| 0 <= i < j < t.len() implies t[i].huddle < t[j].huddle by {
        if i < p {
            assert(t[i] == s[i]);
        } else if i == p {
            assert(t[i] == b);
        } else {
            assert(t[i] == s[i - 1]);
        }
        if j < p {
            assert(t[j] == s[j]);
        } else if j == p {
            assert(t[j] == b);
        } else {
            assert(t[j] == s[j - 1]);
        }
    }
}

/// After replacing the bid at `i` by one for the same huddle, that
/// huddle's entry is the new bid and every other huddle's entry is
/// untouched.
pub proof fn lemma_entries_after_update(s: Seq<Bid>, i: int, b: Bid)
    requires
        bids_sorted(s),
        0 <= i < s.len(),
        b.huddle == s[i].huddle,
    ensures
        bid_entry(s.update(i, b), b.huddle) == Some(b),
        forall|x: u64| x != b.huddle ==> bid_entry(s.update(i, b), x) == bid_entry(s, x),
{
    let t = s.update(i, b);
    assert(t[i].huddle == b.huddle);
    assert(has_bid(t, b.huddle));
    let w = bid_idx(t, b.huddle);
    assert(0 <= w < t.len() && t[w].huddle == b.huddle);
    lemma_sorted_bid_unique(s, w, i);
    assert forall|x: u64| x != b.huddle implies bid_entry(t, x) == bid_entry(s, x) by {
        if has_bid(s, x) {
            let ws = bid_idx(s, x);
            assert(0 <= ws < s.len() && s[ws].huddle == x);
            assert(ws != i);
            assert(t[ws].huddle == x);
            assert(has_bid(t, x));
            let wt = bid_idx(t, x);
            assert(0 <= wt < t.len() && t[wt].huddle == x);
            assert(wt != i);
            assert(s[wt].huddle == x);
            lemma_sorted_bid_unique(s, wt, ws);
        } else {
            if has_bid(t, x) {
                let wt = bid_idx(t, x);
                assert(0 <= wt < t.len() && t[wt].huddle == x);
                assert(wt != i);
                assert(s[wt].huddle == x);
                assert(false);
            }
        }
    }
}

/// After inserting a bid at the sorted position of its huddle, that
/// huddle's entry is the new bid and every other huddle's entry is
/// untouched.
pub proof fn lemma_entries_after_insert(s: Seq<Bid>, p: int, b: Bid)
    requires
        bids_sorted(s),
        0 <= p <= s.len(),
        forall|j: int| 0 <= j < p ==> s[j].huddle < b.huddle,
        forall|j: int| p <= j < s.len() ==> s[j].huddle > b.huddle,
    ensures
        bid_entry(s.insert(p, b), b.huddle) == Some(b),
        forall|x: u64| x != b.huddle ==> bid_entry(s.insert(p, b), x) == bid_entry(s, x),
{
    let t = s.insert(p, b);
    s.insert_ensures(p, b);
    lemma_sorted_bid_insert(s, p, b);
    assert(t[p].huddle == b.huddle);
    assert(has_bid(t, b.huddle));
    let w = bid_idx(t, b.huddle);
    assert(0 <= w < t.len() && t[w].huddle == b.huddle);
    lemma_sorted_bid_unique(t, w, p);
    assert forall|x: u64| x != b.huddle implies bid_entry(t, x) == bid_entry(s, x) by {
        if has_bid(s, x) {
            let ws = bid_idx(s, x);
            assert(0 <= ws < s.len() && s[ws].huddle == x);
            let wmapped: int = if ws < p {
                ws
            } else {
                ws + 1
            };
            assert(t[wmapped].huddle == x);
            assert(has_bid(t, x));
            let wt = bid_idx(t, x);
            assert(0 <= wt < t.len() && t[wt].huddle == x);
            lemma_sorted_bid_unique(t, wt, wmapped);
            assert(t[wt] == s[ws]);
        } else {
            if has_bid(t, x) {
                let wt = bid_idx(t, x);
                assert(0 <= wt < t.len() && t[wt].huddle == x);
                assert(wt != p);
                if wt < p {
                    assert(s[wt].huddle == x);
                } else {
                    assert(s[wt - 1].huddle == x);
                }
                assert(false);
            }
        }
    }
}

/// The sum of winning values is never negative.
pub proof fn lemma_winning_total_nonneg(s: Seq<Bid>)
    ensures
        winning_total(s) >= 0,
    decreases s.len(),
{
    if s.len() > 0 {
        lemma_winning_total_nonneg(s.drop_last());
    }
}

/// The sum of winning values covers each single winning bid.
pub proof fn lemma_winning_total_at_least(s: Seq<Bid>, i: int)
    requires
        0 <= i < s.len(),
        s[i].status is Winning,
    ensures
        winning_total(s) >= s[i].value,
    decreases s.len(),
{
    lemma_winning_total_nonneg(s.drop_last());
    if i < s.len() - 1 {
        lemma_winning_total_at_least(s.drop_last(), i);
    }
}

/// Replacing the bid at `i` shifts the sum of winning values by the
/// difference of the two bids' contributions.
pub proof fn lemma_winning_total_update(s: Seq<Bid>, i: int, b: Bid)
    requires
        0 <= i < s.len(),
    ensures
        winning_total(s.update(i, b)) == winning_total(s) - bid_contrib(s[i]) + bid_contrib(b),
    decreases s.len(),
{
    let t = s.update(i, b);
    if i == s.len() - 1 {
        assert(t.drop_last() =~= s.drop_last());
        assert(t.last() == b);
    } else {
        assert(t.drop_last() =~= s.drop_last().update(i, b));
        assert(t.last() == s.last());
        lemma_winning_total_update(s.drop_last(), i, b);
    }
}

/// Inserting a bid adds its contribution to the sum of winning values.
pub proof fn lemma_winning_total_insert(s: Seq<Bid>, p: int, b: Bid)
    requires
        0 <= p <= s.len(),
    ensures
        winning_total(s.insert(p, b)) == winning_total(s) + bid_contrib(b),
    decreases s.len(),
{
    let t = s.insert(p, b);
    s.insert_ensures(p, b);
    if p == s.len() {
        assert(t.drop_last() =~= s);
        assert(t.last() == b);
    } else {
        assert(t.drop_last() =~= s.drop_last().insert(p, b));
        assert(t.last() == s.last());
        lemma_winning_total_insert(s.drop_last(), p, b);
    }
}

/// Per-guest ordered bounded collections of bids.
pub struct BidLedger {
    /// Bids per guest; an absent key means no bids at all.
    pub map: HashMap<u64, Vec<Bid>>,
    /// The maximum number of bids one guest may hold.
    pub max_per_guest: usize,
}

impl BidLedger {
    /// The bids of `guest`, empty for guests never seen.
    pub open spec fn of(self, guest: u64) -> Seq<Bid> {
        if self.map@.contains_key(guest) {
            self.map@[guest]@
        } else {
            Seq::empty()
        }
    }

    /// Whether `guest` has a stored (possibly empty) collection.
    pub open spec fn stored(self, guest: u64) -> bool {
        self.map@.contains_key(guest)
    }

    /// Every guest's collection is sorted by huddle identifier and
    /// within the per-guest bound.
    pub open spec fn wf(self) -> bool {
        forall|g: u64|
            bids_sorted(#[trigger] self.of(g)) && self.of(g).len() <= self.max_per_guest
    }

    /// An empty ledger with the given per-guest bound.
    pub fn new(max_per_guest: usize) -> (r: BidLedger)
        ensures
            r.wf(),
            r.max_per_guest == max_per_guest,
            forall|g: u64| (#[trigger] r.of(g)) == Seq::<Bid>::empty(),
            forall|g: u64| !(#[trigger] r.stored(g)),
    {
        BidLedger { map: HashMap::new(), max_per_guest }
    }

    /// How many bids `guest` holds.
    pub fn len_of(&self, guest: u64) -> (n: usize)
        ensures
            n == self.of(guest).len(),
    {
        match self.map.get(&guest) {
            Some(v) => v.len(),
            None => 0,
        }
    }

    /// Binary search for the bid on huddle `hid` held by `guest`:
    /// its position, or the position where it would be inserted.
    pub fn search(&self, guest: u64, hid: u64) -> (r: Result<usize, usize>)
        requires
            self.wf(),
        ensures
            match r {
                Ok(i) => {
                    &&& has_bid(self.of(guest), hid)
                    &&& i == bid_idx(self.of(guest), hid)
                    &&& i < self.of(guest).len()
                    &&& self.of(guest)[i as int].huddle == hid
                },
                Err(p) => {
                    &&& !has_bid(self.of(guest), hid)
                    &&& p <= self.of(guest).len()
                    &&& forall|j: int| 0 <= j < p ==> self.of(guest)[j].huddle < hid
                    &&& forall|j: int|
                        p <= j < self.of(guest).len() ==> self.of(guest)[j].huddle > hid
                },
            },
    {
        let v: &Vec<Bid> = match self.map.get(&guest) {
            Some(v) => v,
            None => {
                return Err(0);
            },
        };
        let ghost s = self.of(guest);
        let mut lo: usize = 0;
        let mut hi: usize = v.len();
        while lo < hi
            invariant
                lo <= hi <= v.len(),
                v@ == s,
                s == self.of(guest),
                bids_sorted(s),
                forall|j: int| 0 <= j < lo ==> s[j].huddle < hid,
                forall|j: int| hi <= j < s.len() ==> s[j].huddle > hid,
            decreases hi - lo,
        {
            let mid: usize = lo + (hi - lo) / 2;
            let probe: u64 = v[mid].huddle;
            if probe < hid {
                lo = mid + 1;
            } else if probe > hid {
                hi = mid;
            } else {
                proof {
                    assert(s[mid as int].huddle == hid);
                    assert(has_bid(s, hid));
                    let w = bid_idx(s, hid);
                    assert(0 <= w < s.len() && s[w].huddle == hid);
                    lemma_sorted_bid_unique(s, mid as int, w);
                }
                return Ok(mid);
            }
        }
        Err(lo)
    }

    /// The bid at position `i` of `guest`.
    pub fn get_at(&self, guest: u64, i: usize) -> (b: Bid)
        requires
            i < self.of(guest).len(),
        ensures
            b == self.of(guest)[i as int],
    {
        let v: &Vec<Bid> = match self.map.get(&guest) {
            Some(v) => v,
            None => {
                proof {
                    assert(false);
                }
                return Bid { huddle: 0, value: 0, status: BidStatus::Winning };
            },
        };
        v[i]
    }

    /// Replaces the bid at position `i` of `guest` by `b`, which must
    /// keep its huddle identifier.
    pub fn set_at(&mut self, guest: u64, i: usize, b: Bid)
        requires
            old(self).wf(),
            i < old(self).of(guest).len(),
            b.huddle == old(self).of(guest)[i as int].huddle,
        ensures
            final(self).wf(),
            final(self).max_per_guest == old(self).max_per_guest,
            final(self).of(guest) == old(self).of(guest).update(i as int, b),
            forall|x: u64| x != guest ==> final(self).of(x) == old(self).of(x),
            forall|x: u64| final(self).stored(x) == old(self).stored(x),
    {
        let mut v: Vec<Bid> = match self.map.remove(&guest) {
            Some(v) => v,
            None => {
                proof {
                    assert(false);
                }
                Vec::new()
            },
        };
        v.set(i, b);
        self.map.insert(guest, v);
        proof {
            assert(self.of(guest) =~= old(self).of(guest).update(i as int, b));
            lemma_sorted_bid_update(old(self).of(guest), i as int, b);
            assert forall|x: u64|
                bids_sorted(#[trigger] self.of(x)) && self.of(x).len()
                    <= self.max_per_guest by {
                if x != guest {
                    assert(self.of(x) == old(self).of(x));
                }
            }
        }
    }

    /// Inserts `b` for `guest` at position `p`, which must be the
    /// sorted position of its huddle identifier; the guest must not
    /// hold a bid for that huddle yet and must have room.
    pub fn insert_at(&mut self, guest: u64, p: usize, b: Bid)
        requires
            old(self).wf(),
            old(self).of(guest).len() < old(self).max_per_guest,
            p <= old(self).of(guest).len(),
            forall|j: int| 0 <= j < p ==> old(self).of(guest)[j].huddle < b.huddle,
            forall|j: int|
                p <= j < old(self).of(guest).len() ==> old(self).of(guest)[j].huddle > b.huddle,
        ensures
            final(self).wf(),
            final(self).max_per_guest == old(self).max_per_guest,
            final(self).of(guest) == old(self).of(guest).insert(p as int, b),
            final(self).stored(guest),
            forall|x: u64| x != guest ==> final(self).of(x) == old(self).of(x),
            forall|x: u64| x != guest ==> final(self).stored(x) == old(self).stored(x),
    {
        let mut v: Vec<Bid> = match self.map.remove(&guest) {
            Some(v) => v,
            None => Vec::new(),
        };
        v.insert(p, b);
        self.map.insert(guest, v);
        proof {
            assert(self.of(guest) =~= old(self).of(guest).insert(p as int, b));
            lemma_sorted_bid_insert(old(self).of(guest), p as int, b);
            old(self).of(guest).insert_ensures(p as int, b);
            assert forall|x: u64|
                bids_sorted(#[trigger] self.of(x)) && self.of(x).len()
                    <= self.max_per_guest by {
                if x != guest {
                    assert(self.of(x) == old(self).of(x));
                }
            }
        }
    }
}

} // verus!
