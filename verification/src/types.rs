//! Shared data types: entities, status enums, errors, events and the
//! engine's configuration limits.

use vstd::prelude::*;

verus! {

/// Lifecycle of a huddle (one offered meeting slot).
#[derive(Clone, Copy, PartialEq, Eq, Debug, Structural)]
pub enum HuddleStatus {
    /// Created by its host and open for bids.
    Created,
    /// Opened by a guest; the host has not yet accepted and no
    /// schedule exists.
    Open,
    /// Scheduled and carrying one or more bids.
    InAuction,
    /// Concluded: the deadline passed and the host claimed the funds.
    Concluded,
}

/// Status of one guest's bid on one huddle.
#[derive(Clone, Copy, PartialEq, Eq, Debug, Structural)]
pub enum BidStatus {
    /// The currently winning bid; its value is reserved in escrow.
    Winning,
    /// Surpassed by a higher bid; its reservation has been released.
    Surpassed,
    /// The bid that won a concluded huddle; its reservation has been
    /// repatriated to the host.
    Winner,
}

/// One offered meeting slot and its auction state.
#[derive(Clone, Copy, PartialEq, Eq, Debug, Structural)]
pub struct Huddle {
    /// Unique identifier, assigned monotonically and never reused.
    pub id: u64,
    /// Scheduled moment; 0 means "not yet scheduled" (guest-opened,
    /// host has not accepted).
    pub timestamp: u64,
    /// The account currently holding the winning bid, if any.
    pub guest: Option<u64>,
    /// Current winning value, or the floor value while no bid exists.
    pub value: u64,
    /// Position in the lifecycle.
    pub status: HuddleStatus,
    /// Rating given by the winning guest after conclusion, 0 to 5.
    pub stars: u8,
}

/// One guest's recorded bid state for one huddle.
#[derive(Clone, Copy, PartialEq, Eq, Debug, Structural)]
pub struct Bid {
    /// Identifier of the huddle the bid is for.
    pub huddle: u64,
    /// The offered value.
    pub value: u64,
    /// Status of the bid.
    pub status: BidStatus,
}

/// A host's bound external identity.
#[derive(Clone, PartialEq, Eq, Debug)]
pub struct UserProfile {
    /// Social network account handle, length-bounded.
    pub social_account: Vec<u8>,
    /// Proof that the account belongs to the host, length-bounded.
    pub social_proof: Vec<u8>,
}

/// Typed failure of one engine operation.  Every failure leaves the
/// engine exactly as it was before the call.
#[derive(Clone, Copy, PartialEq, Eq, Debug, Structural)]
pub enum Error {
    /// The caller is not registered as a host.
    HostNotRegistered,
    /// The host's huddle collection is full.
    TooManyHuddles,
    /// The guest's bid collection is full.
    TooManyBids,
    /// The social account handle is too long.
    SocialAccountTooLong,
    /// The social proof is too long.
    SocialProofTooLong,
    /// The huddle identifier space is exhausted.
    OverflowHuddleId,
    /// The huddle identifier was never issued.
    InvalidHuddleId,
    /// The given host owns no huddle with that identifier.
    HostInvalidHuddleId,
    /// The schedule is not far enough in the future, or already past
    /// where a future moment is required.
    InvalidTimestamp,
    /// The bid does not exceed the current value by the required margin.
    BidIsTooLow,
    /// A host may not open a huddle with themselves.
    HostsCannotOpenTheirHuddles,
    /// A host may not bid on their own huddle.
    HostsCannotBidTheirHuddles,
    /// The caller's bid is not the recorded winner.
    NotWinnerBid,
    /// Releasing the previous winning reservation failed.
    UnreserveError,
    /// Repatriating the winning reservation to the host failed.
    RepatriateError,
    /// The huddle's deadline has not been reached yet.
    TimestampNotReached,
    /// The huddle was not found for a claim.
    InvalidClaim,
    /// A host may not rate their own huddle.
    HostsCannotRateTheirHuddles,
    /// The huddle is already concluded.
    HuddleConcluded,
    /// Reserving the bid's value failed for want of free funds.
    ReserveError,
    /// A rating must be at most five stars.
    MaxStarValueIsFive,
}

/// Domain event describing a completed operation; returned to the
/// caller, which owns event delivery.
#[derive(Clone, PartialEq, Eq, Debug)]
pub enum Event {
    /// A host bound a social account and proof: (host, account, proof).
    HostRegistered(u64, Vec<u8>, Vec<u8>),
    /// A host created a huddle: (host, timestamp, floor value).
    HuddleCreated(u64, u64, u64),
    /// A host accepted a guest-opened huddle: (host, timestamp, value).
    HuddleAccepted(u64, u64, u64),
    /// A guest opened a huddle towards a host: (guest, host, value).
    HuddleOpen(u64, u64, u64),
    /// A guest placed a winning bid: (guest, huddle id, value).
    BidCreated(u64, u64, u64),
    /// A host claimed a concluded huddle: (host, huddle id, value).
    Claimed(u64, u64, u64),
    /// The winning guest rated a huddle: (guest, huddle id, stars).
    RatingSent(u64, u64, u8),
}

/// Externally supplied limits and thresholds, fixed at engine creation.
#[derive(Clone, Copy, PartialEq, Eq, Debug, Structural)]
pub struct Config {
    /// Maximum length of a social account handle, in bytes.
    pub max_social_account: usize,
    /// Maximum length of a social proof, in bytes.
    pub max_social_proof: usize,
    /// Maximum number of huddles one host may own.
    pub max_huddles: usize,
    /// Maximum number of bids one guest may hold.
    pub max_bids: usize,
    /// Minimum lead time between "now" and a newly scheduled moment.
    pub min_schedule_lead: u64,
    /// A new bid must exceed the current value by more than this margin.
    pub min_bid_increment: u64,
}

} // verus!
