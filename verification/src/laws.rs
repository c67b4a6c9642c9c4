//! Laws of the auction engine: properties that hold of every
//! well-formed engine state, stated as public proof functions.
//!
//! Each law follows from the well-formedness invariant `Engine::wf`,
//! which every operation requires and re-establishes, and from the
//! operations' contracts.

use vstd::prelude::*;

use crate::engine::Engine;
use crate::ledger::bid_entry;
use crate::ledger::bid_idx;
use crate::ledger::lemma_winning_total_at_least;
use crate::ledger::winning_total;
use crate::registry::has_huddle;
use crate::registry::huddle_idx;
use crate::types::Bid;
use crate::types::BidStatus;
use crate::types::Error;

verus! {

/// Every stored huddle's identifier was issued by the allocator: it
/// lies between 1 and the current counter.  Since a successful
/// `create` or `open` assigns exactly `counter + 1` and advances the
/// counter (and a failed one changes nothing), identifiers are
/// strictly increasing, gapless on the success path, and never reused.
pub proof fn lemma_ids_issued(e: Engine, host: u64, i: int)
    requires
        e.wf(),
        0 <= i < e.huddles_of(host).len(),
    ensures
        1 <= e.huddles_of(host)[i].id <= e.counter(),
        e.huddles_of(host)[i].id != e.counter() + 1,
{
    assert(e.huddle_ok(e.huddles_of(host)[i]));
}

/// A running huddle carries a guest exactly when that guest holds the
/// winning bid for it: the bid names the huddle, carries the huddle's
/// current value, and is reserved in escrow (the guest's reserved
/// funds cover it; `lemma_escrow_conservation` gives the exact sum).
pub proof fn lemma_guest_iff_winning_bid(e: Engine, host: u64, i: int)
    requires
        e.wf(),
        0 <= i < e.huddles_of(host).len(),
        !(e.huddles_of(host)[i].status is Concluded),
    ensures
        e.huddles_of(host)[i].guest matches Some(g) ==> bid_entry(
            e.bids_of(g),
            e.huddles_of(host)[i].id,
        ) == Some(
            Bid {
                huddle: e.huddles_of(host)[i].id,
                value: e.huddles_of(host)[i].value,
                status: BidStatus::Winning,
            },
        ) && e.reserved_of(g) >= e.huddles_of(host)[i].value,
{
    let h = e.huddles_of(host)[i];
    assert(e.guest_linked(host, h));
    if let Some(g) = h.guest {
        assert(bid_entry(e.bids_of(g), h.id) == Some(
            Bid { huddle: h.id, value: h.value, status: BidStatus::Winning },
        ));
        let j = bid_idx(e.bids_of(g), h.id);
        assert(0 <= j < e.bids_of(g).len() && e.bids_of(g)[j].status is Winning);
        lemma_winning_total_at_least(e.bids_of(g), j);
        assert(e.reserved_of(g) as int == winning_total(e.bids_of(g)));
    }
}

/// The converse direction: every winning bid marks its owner as the
/// current guest of the (running) huddle it names, over the same
/// value.
pub proof fn lemma_winning_bid_backs_guest(e: Engine, g: u64, j: int)
    requires
        e.wf(),
        0 <= j < e.bids_of(g).len(),
        e.bids_of(g)[j].status is Winning,
    ensures
        exists|host: u64, i: int|
            0 <= i < e.huddles_of(host).len() && (#[trigger] e.huddles_of(host)[i]).id == e.bids_of(
                g,
            )[j].huddle && e.huddles_of(host)[i].guest == Some(g) && e.huddles_of(host)[i].value
                == e.bids_of(g)[j].value && !(e.huddles_of(host)[i].status is Concluded),
{
    assert(e.winning_backed(g, e.bids_of(g)[j]));
}

/// Escrow conservation: every account's reserved funds are exactly the
/// sum of its winning bid values — a surpassed or winner bid carries
/// no residual reservation.
pub proof fn lemma_escrow_conservation(e: Engine, g: u64)
    requires
        e.wf(),
    ensures
        e.reserved_of(g) as int == winning_total(e.bids_of(g)),
{
}

/// A host can never appear as the current guest of their own huddle,
/// and the engine rejects a host opening, bidding on or rating their
/// own huddle at the entry point.
pub proof fn lemma_no_self_dealing(
    e: Engine,
    host: u64,
    i: int,
    value: u64,
    huddle: u64,
    stars: u8,
    now: u64,
)
    requires
        e.wf(),
        0 <= i < e.huddles_of(host).len(),
    ensures
        e.huddles_of(host)[i].guest != Some(host),
        e.open_err(host, host, value) == Some(Error::HostsCannotOpenTheirHuddles),
        e.bid_err(host, host, huddle, value, now) == Some(Error::HostsCannotBidTheirHuddles),
        e.rate_err(host, host, huddle, stars, now) == Some(Error::HostsCannotRateTheirHuddles),
{
    assert(e.guest_linked(host, e.huddles_of(host)[i]));
}

/// Re-bidding threshold: a bid whose value does not exceed the
/// huddle's current value by more than the configured margin is
/// rejected as too low (and, by the `bid` contract, a rejected bid
/// changes nothing).
pub proof fn lemma_low_bid_rejected(e: Engine, guest: u64, host: u64, huddle: u64, value: u64, now: u64)
    requires
        e.wf(),
        guest != host,
        has_huddle(e.huddles_of(host), huddle),
        !(e.huddle_at(host, huddle).status is Concluded),
        e.huddle_at(host, huddle).status is Open || e.huddle_at(host, huddle).timestamp >= now,
        value <= e.huddle_at(host, huddle).value + e.config.min_bid_increment,
    ensures
        e.bid_err(guest, host, huddle, value, now) == Some(Error::BidIsTooLow),
{
    let i = huddle_idx(e.huddles_of(host), huddle);
    assert(0 <= i < e.huddles_of(host).len() && e.huddles_of(host)[i].id == huddle);
    assert(e.huddle_ok(e.huddles_of(host)[i]));
}

/// Deadline gate for claims: before the huddle's scheduled moment has
/// passed, a claim fails with the not-reached error (and, by the
/// `claim` contract, a failing claim changes nothing).
pub proof fn lemma_claim_needs_deadline(e: Engine, host: u64, huddle: u64, now: u64)
    requires
        e.wf(),
        has_huddle(e.huddles_of(host), huddle),
        !(e.huddle_at(host, huddle).status is Concluded),
        e.huddle_at(host, huddle).timestamp >= now,
    ensures
        e.claim_err(host, huddle, now) == Some(Error::TimestampNotReached),
{
    let i = huddle_idx(e.huddles_of(host), huddle);
    assert(0 <= i < e.huddles_of(host).len() && e.huddles_of(host)[i].id == huddle);
    assert(e.huddle_ok(e.huddles_of(host)[i]));
}

/// Claims are not idempotent successes: once a huddle is concluded,
/// any further claim on it fails (and, by the `claim` contract, a
/// failing claim changes nothing, so funds can never be repatriated a
/// second time).
pub proof fn lemma_claim_concluded_fails(e: Engine, host: u64, huddle: u64, now: u64)
    requires
        e.wf(),
        has_huddle(e.huddles_of(host), huddle),
        e.huddle_at(host, huddle).status is Concluded,
    ensures
        e.claim_err(host, huddle, now) == Some(Error::HuddleConcluded),
{
    let i = huddle_idx(e.huddles_of(host), huddle);
    assert(0 <= i < e.huddles_of(host).len() && e.huddles_of(host)[i].id == huddle);
    assert(e.huddle_ok(e.huddles_of(host)[i]));
}

/// Winner gate for ratings: only the account whose bid on the huddle
/// is recorded as the winner may rate it; any other caller fails (and,
/// by the `rate` contract, a failing rate leaves the stars unchanged).
pub proof fn lemma_rate_needs_winner(
    e: Engine,
    guest: u64,
    host: u64,
    huddle: u64,
    stars: u8,
    now: u64,
)
    requires
        e.wf(),
        guest != host,
        stars <= 5,
        has_huddle(e.huddles_of(host), huddle),
        e.huddle_at(host, huddle).timestamp < now,
        !(bid_entry(e.bids_of(guest), huddle) matches Some(b) && b.status is Winner),
    ensures
        e.rate_err(guest, host, huddle, stars, now) == Some(Error::NotWinnerBid),
{
    let i = huddle_idx(e.huddles_of(host), huddle);
    assert(0 <= i < e.huddles_of(host).len() && e.huddles_of(host)[i].id == huddle);
    assert(e.huddle_ok(e.huddles_of(host)[i]));
}

} // verus!
