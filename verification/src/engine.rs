//! The auction engine: orchestrates every public operation over the
//! profile store, the huddle registry, the bid ledger and the escrow
//! controller.
//!
//! Each operation validates first and mutates only once every check has
//! passed, so a failing call returns a typed error and leaves the whole
//! engine exactly as it was.  The well-formedness invariant `wf` holds
//! after every completed call.

use std::collections::HashMap;

use vstd::prelude::*;

use crate::escrow::Escrow;
use crate::escrow::Funds;
use crate::id_alloc::IdAllocator;
use crate::ledger::BidLedger;
use crate::ledger::bid_contrib;
use crate::ledger::bid_entry;
use crate::ledger::bid_idx;
use crate::ledger::has_bid;
use crate::ledger::lemma_entries_after_insert;
use crate::ledger::lemma_entries_after_update;
use crate::ledger::lemma_sorted_bid_unique;
use crate::ledger::lemma_winning_total_at_least;
use crate::ledger::lemma_winning_total_insert;
use crate::ledger::lemma_winning_total_update;
use crate::ledger::winning_total;
use crate::registry::HuddleRegistry;
use crate::registry::has_huddle;
use crate::registry::huddle_idx;
use crate::types::Bid;
use crate::types::BidStatus;
use crate::types::Config;
use crate::types::Error;
use crate::types::Event;
use crate::types::Huddle;
use crate::types::HuddleStatus;
use crate::types::UserProfile;

verus! {

broadcast use vstd::std_specs::hash::group_hash_axioms;

/// The auction engine's whole state.
pub struct Engine {
    /// Externally supplied limits and thresholds.
    pub config: Config,
    /// Issues huddle identifiers.
    pub ids: IdAllocator,
    /// Registered hosts' profiles.
    pub profiles: HashMap<u64, UserProfile>,
    /// Huddles per host.
    pub registry: HuddleRegistry,
    /// Bids per guest.
    pub ledger: BidLedger,
    /// Free and reserved funds per account.
    pub escrow: Escrow,
}

/// The profile store is unchanged between `pre` and `post`.
pub open spec fn same_profiles(pre: Engine, post: Engine) -> bool {
    &&& post.profiles@ == pre.profiles@
    &&& forall|x: u64| (#[trigger] post.registered(x)) == pre.registered(x)
    &&& forall|x: u64| (#[trigger] post.profile_of(x)) == pre.profile_of(x)
}

/// Every host's huddles are unchanged between `pre` and `post`.
pub open spec fn same_huddles(pre: Engine, post: Engine) -> bool {
    &&& forall|x: u64| (#[trigger] post.huddles_of(x)) == pre.huddles_of(x)
    &&& forall|x: u64| (#[trigger] post.registry.stored(x)) == pre.registry.stored(x)
}

/// Every guest's bids are unchanged between `pre` and `post`.
pub open spec fn same_bids(pre: Engine, post: Engine) -> bool {
    &&& forall|x: u64| (#[trigger] post.bids_of(x)) == pre.bids_of(x)
    &&& forall|x: u64| (#[trigger] post.ledger.stored(x)) == pre.ledger.stored(x)
}

/// Every account's funds are unchanged between `pre` and `post`.
pub open spec fn same_escrow(pre: Engine, post: Engine) -> bool {
    forall|x: u64| (#[trigger] post.funds_of(x)) == pre.funds_of(x)
}

impl Engine {
    /// The last huddle identifier ever issued.
    pub open spec fn counter(self) -> u64 {
        self.ids.last_id()
    }

    /// Whether `account` is registered as a host.
    pub open spec fn registered(self, account: u64) -> bool {
        self.profiles@.contains_key(account)
    }

    /// The profile of a registered host.
    pub open spec fn profile_of(self, account: u64) -> UserProfile {
        self.profiles@[account]
    }

    /// The huddles of `host`, ordered by identifier.
    pub open spec fn huddles_of(self, host: u64) -> Seq<Huddle> {
        self.registry.of(host)
    }

    /// The bids of `guest`, ordered by huddle identifier.
    pub open spec fn bids_of(self, guest: u64) -> Seq<Bid> {
        self.ledger.of(guest)
    }

    /// The funds of `account`.
    pub open spec fn funds_of(self, account: u64) -> Funds {
        self.escrow.funds_of(account)
    }

    /// The free funds of `account`.
    pub open spec fn free_of(self, account: u64) -> u64 {
        self.funds_of(account).free
    }

    /// The reserved funds of `account`.
    pub open spec fn reserved_of(self, account: u64) -> u64 {
        self.funds_of(account).reserved
    }

    /// A stored huddle carries an identifier that was issued and a
    /// rating of at most five stars.
    pub open spec fn huddle_ok(self, h: Huddle) -> bool {
        &&& 1 <= h.id <= self.counter()
        &&& h.stars <= 5
    }

    /// Every stored huddle is sound in itself.
    pub open spec fn huddles_ok(self) -> bool {
        forall|host: u64, i: int|
            0 <= i < self.huddles_of(host).len() ==> self.huddle_ok(
                #[trigger] self.huddles_of(host)[i],
            )
    }

    /// Every stored bid names an identifier that was issued.
    pub open spec fn bids_ok(self) -> bool {
        forall|g: u64, j: int|
            0 <= j < self.bids_of(g).len() ==> 1 <= (#[trigger] self.bids_of(g)[j]).huddle
                <= self.counter()
    }

    /// No two stored huddles share an identifier.
    pub open spec fn ids_unique(self) -> bool {
        forall|h1: u64, i1: int, h2: u64, i2: int|
            0 <= i1 < self.huddles_of(h1).len() && 0 <= i2 < self.huddles_of(h2).len() && (h1 != h2
                || i1 != i2) ==> (#[trigger] self.huddles_of(h1)[i1]).id != (
            #[trigger] self.huddles_of(h2)[i2]).id
    }

    /// A huddle's current guest, where it has one, is not its host and
    /// holds the matching bid record: winning while the huddle runs,
    /// winner once it is concluded, in both cases over the huddle's
    /// current value.
    pub open spec fn guest_linked(self, host: u64, h: Huddle) -> bool {
        h.guest matches Some(g) ==> {
            &&& g != host
            &&& bid_entry(self.bids_of(g), h.id) == Some(
                Bid {
                    huddle: h.id,
                    value: h.value,
                    status: if h.status is Concluded {
                        BidStatus::Winner
                    } else {
                        BidStatus::Winning
                    },
                },
            )
        }
    }

    /// Every stored huddle's guest link is sound.
    pub open spec fn guests_linked(self) -> bool {
        forall|host: u64, i: int|
            0 <= i < self.huddles_of(host).len() ==> self.guest_linked(
                host,
                #[trigger] self.huddles_of(host)[i],
            )
    }

    /// A winning bid is backed by a running huddle whose current guest
    /// is the bid's owner and whose current value is the bid's value.
    pub open spec fn winning_backed(self, g: u64, b: Bid) -> bool {
        b.status is Winning ==> exists|host: u64, i: int|
            0 <= i < self.huddles_of(host).len() && (#[trigger] self.huddles_of(host)[i]).id
                == b.huddle && self.huddles_of(host)[i].guest == Some(g) && self.huddles_of(
                host,
            )[i].value == b.value && !(self.huddles_of(host)[i].status is Concluded)
    }

    /// Every stored winning bid is backed.
    pub open spec fn bids_backed(self) -> bool {
        forall|g: u64, j: int|
            0 <= j < self.bids_of(g).len() ==> self.winning_backed(
                g,
                #[trigger] self.bids_of(g)[j],
            )
    }

    /// Escrow conservation: each account's reserved funds equal the sum
    /// of its winning bid values.
    pub open spec fn conserved(self) -> bool {
        forall|g: u64| (#[trigger] self.reserved_of(g)) as int == winning_total(self.bids_of(g))
    }

    /// The engine's well-formedness invariant; it holds after every
    /// completed call.
    pub open spec fn wf(self) -> bool {
        &&& self.registry.wf()
        &&& self.ledger.wf()
        &&& self.escrow.wf()
        &&& self.registry.max_per_host == self.config.max_huddles
        &&& self.ledger.max_per_guest == self.config.max_bids
        &&& self.huddles_ok()
        &&& self.bids_ok()
        &&& self.ids_unique()
        &&& self.guests_linked()
        &&& self.bids_backed()
        &&& self.conserved()
    }

    /// A fresh engine with the given configuration and no state.
    pub fn new(config: Config) -> (r: Engine)
        ensures
            r.wf(),
            r.config == config,
            r.counter() == 0,
            forall|a: u64| !(#[trigger] r.registered(a)),
            forall|x: u64| (#[trigger] r.huddles_of(x)) == Seq::<Huddle>::empty(),
            forall|x: u64| !(#[trigger] r.registry.stored(x)),
            forall|x: u64| (#[trigger] r.bids_of(x)) == Seq::<Bid>::empty(),
            forall|x: u64| !(#[trigger] r.ledger.stored(x)),
            forall|a: u64| (#[trigger] r.funds_of(a)) == (Funds { free: 0, reserved: 0 }),
    {
        Engine {
            config,
            ids: IdAllocator::new(0),
            profiles: HashMap::new(),
            registry: HuddleRegistry::new(config.max_huddles),
            ledger: BidLedger::new(config.max_bids),
            escrow: Escrow::new(),
        }
    }

    /// The last huddle identifier ever issued.
    pub fn huddle_counter(&self) -> (r: u64)
        ensures
            r == self.counter(),
    {
        self.ids.current()
    }

    /// The profile bound to `account`, if it is registered.
    pub fn hosts(&self, account: u64) -> (r: Option<UserProfile>)
        ensures
            match r {
                Some(p) => {
                    &&& self.registered(account)
                    &&& p.social_account@ == self.profile_of(account).social_account@
                    &&& p.social_proof@ == self.profile_of(account).social_proof@
                },
                None => !self.registered(account),
            },
    {
        match self.profiles.get(&account) {
            Some(p) => Some(
                UserProfile {
                    social_account: copied(&p.social_account),
                    social_proof: copied(&p.social_proof),
                },
            ),
            None => None,
        }
    }

    /// The huddles of `host`, or nothing where none was ever stored.
    pub fn huddles(&self, host: u64) -> (r: Option<Vec<Huddle>>)
        ensures
            match r {
                Some(v) => self.registry.stored(host) && v@ == self.huddles_of(host),
                None => !self.registry.stored(host),
            },
    {
        match self.registry.map.get(&host) {
            Some(v) => Some(copied(v)),
            None => None,
        }
    }

    /// The bids of `guest`, or nothing where none was ever stored.
    pub fn bids(&self, guest: u64) -> (r: Option<Vec<Bid>>)
        ensures
            match r {
                Some(v) => self.ledger.stored(guest) && v@ == self.bids_of(guest),
                None => !self.ledger.stored(guest),
            },
    {
        match self.ledger.map.get(&guest) {
            Some(v) => Some(copied(v)),
            None => None,
        }
    }

    /// The free funds of `account`.
    pub fn free_balance(&self, account: u64) -> (r: u64)
        ensures
            r == self.free_of(account),
    {
        self.escrow.free_balance(account)
    }

    /// The reserved funds of `account`.
    pub fn reserved_balance(&self, account: u64) -> (r: u64)
        ensures
            r == self.reserved_of(account),
    {
        self.escrow.reserved_balance(account)
    }

    /// Adds `amount` to the free funds of `account`; fails, changing
    /// nothing, when the account's total funds would overflow.
    pub fn endow(&mut self, account: u64, amount: u64) -> (ok: bool)
        requires
            old(self).wf(),
        ensures
            final(self).wf(),
            final(self).config == old(self).config,
            final(self).counter() == old(self).counter(),
            ok <==> old(self).free_of(account) + old(self).reserved_of(account) + amount
                <= u64::MAX,
            ok ==> final(self).funds_of(account) == (Funds {
                free: (old(self).free_of(account) + amount) as u64,
                reserved: old(self).reserved_of(account),
            }),
            !ok ==> *final(self) == *old(self),
            forall|x: u64| x != account ==> final(self).funds_of(x) == old(self).funds_of(x),
            same_profiles(*old(self), *final(self)),
            same_huddles(*old(self), *final(self)),
            same_bids(*old(self), *final(self)),
    {
        let ok = self.escrow.endow(account, amount);
        proof {
            assert forall|x: u64| (#[trigger] self.reserved_of(x)) == old(self).reserved_of(
                x,
            ) by {
                if x != account {
                    assert(self.funds_of(x) == old(self).funds_of(x));
                }
            }
            lemma_wf_frame(*old(self), *self);
        }
        ok
    }

    /// The error `register` returns on these inputs, if any.
    pub open spec fn register_err(
        self,
        host: u64,
        social_account: Seq<u8>,
        social_proof: Seq<u8>,
    ) -> Option<Error> {
        if social_account.len() > self.config.max_social_account {
            Some(Error::SocialAccountTooLong)
        } else if social_proof.len() > self.config.max_social_proof {
            Some(Error::SocialProofTooLong)
        } else {
            None
        }
    }

    /// Binds `social_account` and `social_proof` to `host`, creating
    /// or overwriting the host's profile.
    pub fn register(&mut self, host: u64, social_account: Vec<u8>, social_proof: Vec<u8>) -> (r:
        Result<Event, Error>)
        requires
            old(self).wf(),
        ensures
            final(self).wf(),
            final(self).config == old(self).config,
            final(self).counter() == old(self).counter(),
            match r {
                Ok(ev) => {
                    &&& old(self).register_err(host, social_account@, social_proof@) is None
                    &&& ev matches Event::HostRegistered(a, sa, sp) && a == host && sa@
                        == social_account@ && sp@ == social_proof@
                    &&& final(self).registered(host)
                    &&& final(self).profile_of(host).social_account@ == social_account@
                    &&& final(self).profile_of(host).social_proof@ == social_proof@
                    &&& forall|x: u64|
                        x != host ==> #[trigger] final(self).registered(x) == old(self).registered(
                            x,
                        )
                    &&& forall|x: u64|
                        x != host && old(self).registered(x) ==> #[trigger] final(self).profile_of(
                            x,
                        ) == old(self).profile_of(x)
                    &&& same_huddles(*old(self), *final(self))
                    &&& same_bids(*old(self), *final(self))
                    &&& same_escrow(*old(self), *final(self))
                },
                Err(e) => {
                    &&& old(self).register_err(host, social_account@, social_proof@) == Some(e)
                    &&& *final(self) == *old(self)
                },
            },
    {
        if social_account.len() > self.config.max_social_account {
            return Err(Error::SocialAccountTooLong);
        }
        if social_proof.len() > self.config.max_social_proof {
            return Err(Error::SocialProofTooLong);
        }
        let profile = UserProfile {
            social_account: copied(&social_account),
            social_proof: copied(&social_proof),
        };
        self.profiles.insert(host, profile);
        proof {
            lemma_wf_frame(*old(self), *self);
        }
        Ok(Event::HostRegistered(host, social_account, social_proof))
    }

    /// The error `create` returns on these inputs, if any.
    pub open spec fn create_err(self, host: u64, timestamp: u64, value: u64, now: u64) -> Option<
        Error,
    > {
        if !self.registered(host) {
            Some(Error::HostNotRegistered)
        } else if timestamp < now + self.config.min_schedule_lead {
            Some(Error::InvalidTimestamp)
        } else if self.counter() == u64::MAX {
            Some(Error::OverflowHuddleId)
        } else if self.huddles_of(host).len() >= self.config.max_huddles {
            Some(Error::TooManyHuddles)
        } else {
            None
        }
    }

    /// The huddle a successful `create` appends.
    pub open spec fn created_huddle(self, timestamp: u64, value: u64) -> Huddle {
        Huddle {
            id: (self.counter() + 1) as u64,
            timestamp,
            guest: None,
            value,
            status: HuddleStatus::Created,
            stars: 0,
        }
    }

    /// A registered host creates a huddle scheduled at `timestamp`
    /// (which must lie at least the configured lead time after `now`)
    /// with floor value `value`.  The huddle gets the next identifier;
    /// a failed call does not consume one.
    #[verifier::rlimit(100)]
    pub fn create(&mut self, host: u64, timestamp: u64, value: u64, now: u64) -> (r: Result<
        Event,
        Error,
    >)
        requires
            old(self).wf(),
        ensures
            final(self).wf(),
            final(self).config == old(self).config,
            match r {
                Ok(ev) => {
                    &&& old(self).create_err(host, timestamp, value, now) is None
                    &&& ev == Event::HuddleCreated(host, timestamp, value)
                    &&& final(self).counter() == old(self).counter() + 1
                    &&& final(self).huddles_of(host) == old(self).huddles_of(host).push(
                        old(self).created_huddle(timestamp, value),
                    )
                    &&& final(self).registry.stored(host)
                    &&& forall|x: u64|
                        x != host ==> (#[trigger] final(self).huddles_of(x)) == old(
                            self,
                        ).huddles_of(x)
                    &&& forall|x: u64|
                        x != host ==> (#[trigger] final(self).registry.stored(x)) == old(
                            self,
                        ).registry.stored(x)
                    &&& same_profiles(*old(self), *final(self))
                    &&& same_bids(*old(self), *final(self))
                    &&& same_escrow(*old(self), *final(self))
                },
                Err(e) => {
                    &&& old(self).create_err(host, timestamp, value, now) == Some(e)
                    &&& *final(self) == *old(self)
                },
            },
    {
        if !self.profiles.contains_key(&host) {
            return Err(Error::HostNotRegistered);
        }
        let lead = self.config.min_schedule_lead;
        if !(timestamp >= lead && timestamp - lead >= now) {
            return Err(Error::InvalidTimestamp);
        }
        let next = match self.ids.next_id() {
            Ok(id) => id,
            Err(e) => {
                return Err(e);
            },
        };
        if self.registry.len_of(host) >= self.config.max_huddles {
            return Err(Error::TooManyHuddles);
        }
        let h = Huddle {
            id: next,
            timestamp,
            guest: None,
            value,
            status: HuddleStatus::Created,
            stars: 0,
        };
        proof {
            assert forall|j: int| 0 <= j < self.huddles_of(host).len() implies self.huddles_of(
                host,
            )[j].id < h.id by {
                assert(self.huddle_ok(self.huddles_of(host)[j]));
            }
        }
        self.registry.append(host, h);
        self.ids.commit(next);
        proof {
            lemma_wf_after_create(*old(self), *self, host, h);
        }
        Ok(Event::HuddleCreated(host, timestamp, value))
    }

    /// The error `open` returns on these inputs, if any.
    pub open spec fn open_err(self, guest: u64, host: u64, value: u64) -> Option<Error> {
        if host == guest {
            Some(Error::HostsCannotOpenTheirHuddles)
        } else if !self.registered(host) {
            Some(Error::HostNotRegistered)
        } else if self.counter() == u64::MAX {
            Some(Error::OverflowHuddleId)
        } else if self.huddles_of(host).len() > 0 && value < self.huddles_of(host).last().value {
            Some(Error::BidIsTooLow)
        } else if self.huddles_of(host).len() >= self.config.max_huddles {
            Some(Error::TooManyHuddles)
        } else if self.bids_of(guest).len() >= self.config.max_bids {
            Some(Error::TooManyBids)
        } else if self.free_of(guest) < value {
            Some(Error::ReserveError)
        } else {
            None
        }
    }

    /// The huddle a successful `open` appends.
    pub open spec fn opened_huddle(self, guest: u64, value: u64) -> Huddle {
        Huddle {
            id: (self.counter() + 1) as u64,
            timestamp: 0,
            guest: Some(guest),
            value,
            status: HuddleStatus::Open,
            stars: 0,
        }
    }

    /// A guest opens a huddle towards a registered host, immediately
    /// becoming its winning guest: `value` (which must not fall below
    /// the value of the host's most recently appended huddle) is
    /// reserved from the guest, the huddle starts unscheduled in the
    /// open state, and the guest's winning bid is recorded.
    #[verifier::rlimit(100)]
    pub fn open(&mut self, guest: u64, host: u64, value: u64) -> (r: Result<Event, Error>)
        requires
            old(self).wf(),
        ensures
            final(self).wf(),
            final(self).config == old(self).config,
            match r {
                Ok(ev) => {
                    &&& old(self).open_err(guest, host, value) is None
                    &&& ev == Event::HuddleOpen(guest, host, value)
                    &&& final(self).counter() == old(self).counter() + 1
                    &&& final(self).huddles_of(host) == old(self).huddles_of(host).push(
                        old(self).opened_huddle(guest, value),
                    )
                    &&& final(self).registry.stored(host)
                    &&& forall|x: u64|
                        x != host ==> (#[trigger] final(self).huddles_of(x)) == old(
                            self,
                        ).huddles_of(x)
                    &&& forall|x: u64|
                        x != host ==> (#[trigger] final(self).registry.stored(x)) == old(
                            self,
                        ).registry.stored(x)
                    &&& final(self).bids_of(guest) == old(self).bids_of(guest).push(
                        Bid {
                            huddle: (old(self).counter() + 1) as u64,
                            value,
                            status: BidStatus::Winning,
                        },
                    )
                    &&& final(self).ledger.stored(guest)
                    &&& forall|x: u64|
                        x != guest ==> (#[trigger] final(self).bids_of(x)) == old(self).bids_of(x)
                    &&& forall|x: u64|
                        x != guest ==> (#[trigger] final(self).ledger.stored(x)) == old(
                            self,
                        ).ledger.stored(x)
                    &&& final(self).funds_of(guest) == (Funds {
                        free: (old(self).free_of(guest) - value) as u64,
                        reserved: (old(self).reserved_of(guest) + value) as u64,
                    })
                    &&& forall|x: u64|
                        x != guest ==> (#[trigger] final(self).funds_of(x)) == old(self).funds_of(
                            x,
                        )
                    &&& same_profiles(*old(self), *final(self))
                },
                Err(e) => {
                    &&& old(self).open_err(guest, host, value) == Some(e)
                    &&& *final(self) == *old(self)
                },
            },
    {
        if host == guest {
            return Err(Error::HostsCannotOpenTheirHuddles);
        }
        if !self.profiles.contains_key(&host) {
            return Err(Error::HostNotRegistered);
        }
        let next = match self.ids.next_id() {
            Ok(id) => id,
            Err(e) => {
                return Err(e);
            },
        };
        let n_huddles = self.registry.len_of(host);
        if n_huddles > 0 {
            let last = self.registry.get_at(host, n_huddles - 1);
            if value < last.value {
                return Err(Error::BidIsTooLow);
            }
        }
        if n_huddles >= self.config.max_huddles {
            return Err(Error::TooManyHuddles);
        }
        let n_bids = self.ledger.len_of(guest);
        if n_bids >= self.config.max_bids {
            return Err(Error::TooManyBids);
        }
        if self.escrow.free_balance(guest) < value {
            return Err(Error::ReserveError);
        }
        self.escrow.reserve(guest, value);
        let h = Huddle {
            id: next,
            timestamp: 0,
            guest: Some(guest),
            value,
            status: HuddleStatus::Open,
            stars: 0,
        };
        proof {
            assert forall|j: int| 0 <= j < self.huddles_of(host).len() implies self.huddles_of(
                host,
            )[j].id < h.id by {
                assert(self.huddle_ok(self.huddles_of(host)[j]));
            }
        }
        self.registry.append(host, h);
        let b = Bid { huddle: next, value, status: BidStatus::Winning };
        proof {
            assert forall|j: int| 0 <= j < self.bids_of(guest).len() implies self.bids_of(
                guest,
            )[j].huddle < b.huddle by {
                assert(1 <= old(self).bids_of(guest)[j].huddle <= old(self).counter());
            }
        }
        self.ledger.insert_at(guest, n_bids, b);
        self.ids.commit(next);
        proof {
            assert(self.bids_of(guest) =~= old(self).bids_of(guest).push(b));
            lemma_wf_after_open(*old(self), *self, host, guest, h);
        }
        Ok(Event::HuddleOpen(guest, host, value))
    }

    /// The stored huddle of `host` with identifier `id`; meaningful
    /// only when `has_huddle(self.huddles_of(host), id)` holds.
    pub open spec fn huddle_at(self, host: u64, id: u64) -> Huddle {
        self.huddles_of(host)[huddle_idx(self.huddles_of(host), id)]
    }

    /// The error `accept` returns on these inputs, if any.
    pub open spec fn accept_err(self, host: u64, huddle: u64, timestamp: u64, now: u64) -> Option<
        Error,
    > {
        if !(0 < huddle && huddle <= self.counter()) {
            Some(Error::InvalidHuddleId)
        } else if !has_huddle(self.huddles_of(host), huddle) {
            Some(Error::HostInvalidHuddleId)
        } else if self.huddle_at(host, huddle).status is Concluded {
            Some(Error::HuddleConcluded)
        } else if timestamp < now + self.config.min_schedule_lead {
            Some(Error::InvalidTimestamp)
        } else {
            None
        }
    }

    /// A host accepts (or reschedules) one of their running huddles,
    /// recording `timestamp` (at least the configured lead time after
    /// `now`) and moving it into auction.
    #[verifier::rlimit(100)]
    pub fn accept(&mut self, host: u64, huddle: u64, timestamp: u64, now: u64) -> (r: Result<
        Event,
        Error,
    >)
        requires
            old(self).wf(),
        ensures
            final(self).wf(),
            final(self).config == old(self).config,
            final(self).counter() == old(self).counter(),
            match r {
                Ok(ev) => {
                    &&& old(self).accept_err(host, huddle, timestamp, now) is None
                    &&& ev == Event::HuddleAccepted(
                        host,
                        timestamp,
                        old(self).huddle_at(host, huddle).value,
                    )
                    &&& final(self).huddles_of(host) == old(self).huddles_of(host).update(
                        huddle_idx(old(self).huddles_of(host), huddle),
                        Huddle {
                            id: huddle,
                            timestamp,
                            guest: old(self).huddle_at(host, huddle).guest,
                            value: old(self).huddle_at(host, huddle).value,
                            status: HuddleStatus::InAuction,
                            stars: old(self).huddle_at(host, huddle).stars,
                        },
                    )
                    &&& forall|x: u64|
                        x != host ==> (#[trigger] final(self).huddles_of(x)) == old(
                            self,
                        ).huddles_of(x)
                    &&& forall|x: u64|
                        (#[trigger] final(self).registry.stored(x)) == old(self).registry.stored(x)
                    &&& same_profiles(*old(self), *final(self))
                    &&& same_bids(*old(self), *final(self))
                    &&& same_escrow(*old(self), *final(self))
                },
                Err(e) => {
                    &&& old(self).accept_err(host, huddle, timestamp, now) == Some(e)
                    &&& *final(self) == *old(self)
                },
            },
    {
        if !(0 < huddle && huddle <= self.ids.current()) {
            return Err(Error::InvalidHuddleId);
        }
        let pos = match self.registry.find_pos(host, huddle) {
            Some(p) => p,
            None => {
                return Err(Error::HostInvalidHuddleId);
            },
        };
        let h = self.registry.get_at(host, pos);
        if h.status == HuddleStatus::Concluded {
            return Err(Error::HuddleConcluded);
        }
        let lead = self.config.min_schedule_lead;
        if !(timestamp >= lead && timestamp - lead >= now) {
            return Err(Error::InvalidTimestamp);
        }
        let h2 = Huddle {
            id: huddle,
            timestamp,
            guest: h.guest,
            value: h.value,
            status: HuddleStatus::InAuction,
            stars: h.stars,
        };
        self.registry.set_at(host, pos, h2);
        proof {
            lemma_wf_after_huddle_tweak(*old(self), *self, host, pos as int, h2);
        }
        Ok(Event::HuddleAccepted(host, timestamp, h.value))
    }

    /// What a bid by `guest` on `huddle` frees alongside the new
    /// reservation: the huddle's current value where the caller is
    /// already its winning guest (that reservation is released before
    /// the new one is taken), nothing otherwise.
    pub open spec fn bid_release(self, host: u64, huddle: u64, guest: u64) -> int {
        if self.huddle_at(host, huddle).guest == Some(guest) {
            self.huddle_at(host, huddle).value as int
        } else {
            0
        }
    }

    /// The guest whose winning bid a bid by `guest` on `huddle`
    /// surpasses and releases: the huddle's current guest, unless that
    /// is the caller (who then replaces their own bid) or nobody.
    pub open spec fn displaced_guest(self, host: u64, huddle: u64, guest: u64) -> Option<u64> {
        match self.huddle_at(host, huddle).guest {
            Some(g0) => if g0 != guest {
                Some(g0)
            } else {
                None
            },
            None => None,
        }
    }

    /// The error `bid` returns on these inputs, if any.
    pub open spec fn bid_err(
        self,
        guest: u64,
        host: u64,
        huddle: u64,
        value: u64,
        now: u64,
    ) -> Option<Error> {
        if host == guest {
            Some(Error::HostsCannotBidTheirHuddles)
        } else if !(0 < huddle && huddle <= self.counter()) {
            Some(Error::InvalidHuddleId)
        } else if !has_huddle(self.huddles_of(host), huddle) {
            Some(Error::HostInvalidHuddleId)
        } else if self.huddle_at(host, huddle).status is Concluded {
            Some(Error::HuddleConcluded)
        } else if !(self.huddle_at(host, huddle).status is Open) && self.huddle_at(
            host,
            huddle,
        ).timestamp < now {
            Some(Error::InvalidTimestamp)
        } else if value <= self.huddle_at(host, huddle).value + self.config.min_bid_increment {
            Some(Error::BidIsTooLow)
        } else if !has_bid(self.bids_of(guest), huddle) && self.bids_of(guest).len()
            >= self.config.max_bids {
            Some(Error::TooManyBids)
        } else if self.free_of(guest) + self.bid_release(host, huddle, guest) < value {
            Some(Error::ReserveError)
        } else {
            None
        }
    }

    /// A guest bids on a host's running huddle.  The bid must exceed
    /// the current value by more than the configured margin; the
    /// previously winning guest's reservation (if another guest held
    /// one) is released and their bid surpassed; the caller's bid is
    /// recorded as winning and its value reserved; and the huddle
    /// carries the caller as its winning guest.  A huddle that is not
    /// open any more (it has a schedule) takes no bids once its moment
    /// has passed, and a concluded huddle takes none at all.
    #[verifier::rlimit(100)]
    pub fn bid(&mut self, guest: u64, host: u64, huddle: u64, value: u64, now: u64) -> (r: Result<
        Event,
        Error,
    >)
        requires
            old(self).wf(),
        ensures
            final(self).wf(),
            final(self).config == old(self).config,
            final(self).counter() == old(self).counter(),
            match r {
                Ok(ev) => {
                    &&& old(self).bid_err(guest, host, huddle, value, now) is None
                    &&& ev == Event::BidCreated(guest, huddle, value)
                    &&& final(self).huddles_of(host) == old(self).huddles_of(host).update(
                        huddle_idx(old(self).huddles_of(host), huddle),
                        Huddle {
                            id: huddle,
                            timestamp: old(self).huddle_at(host, huddle).timestamp,
                            guest: Some(guest),
                            value,
                            status: if old(self).huddle_at(host, huddle).status is Open {
                                HuddleStatus::Open
                            } else {
                                HuddleStatus::InAuction
                            },
                            stars: old(self).huddle_at(host, huddle).stars,
                        },
                    )
                    &&& forall|x: u64|
                        x != host ==> (#[trigger] final(self).huddles_of(x)) == old(
                            self,
                        ).huddles_of(x)
                    &&& forall|x: u64|
                        (#[trigger] final(self).registry.stored(x)) == old(self).registry.stored(x)
                    &&& bid_entry(final(self).bids_of(guest), huddle) == Some(
                        Bid { huddle, value, status: BidStatus::Winning },
                    )
                    &&& forall|x: u64|
                        x != huddle ==> bid_entry(final(self).bids_of(guest), x) == bid_entry(
                            old(self).bids_of(guest),
                            x,
                        )
                    &&& final(self).bids_of(guest).len() == old(self).bids_of(guest).len() + (
                    if has_bid(old(self).bids_of(guest), huddle) {
                        0int
                    } else {
                        1int
                    })
                    &&& final(self).ledger.stored(guest)
                    &&& forall|x: u64|
                        x != guest ==> (#[trigger] final(self).ledger.stored(x)) == old(
                            self,
                        ).ledger.stored(x)
                    &&& (old(self).displaced_guest(host, huddle, guest) matches Some(g0) ==> {
                        &&& final(self).bids_of(g0) == old(self).bids_of(g0).update(
                            bid_idx(old(self).bids_of(g0), huddle),
                            Bid {
                                huddle,
                                value: old(self).huddle_at(host, huddle).value,
                                status: BidStatus::Surpassed,
                            },
                        )
                        &&& final(self).funds_of(g0) == (Funds {
                            free: (old(self).free_of(g0) + old(self).huddle_at(
                                host,
                                huddle,
                            ).value) as u64,
                            reserved: (old(self).reserved_of(g0) - old(self).huddle_at(
                                host,
                                huddle,
                            ).value) as u64,
                        })
                    })
                    &&& forall|x: u64|
                        x != guest && old(self).displaced_guest(host, huddle, guest) != Some(x)
                            ==> (#[trigger] final(self).bids_of(x)) == old(self).bids_of(x)
                    &&& forall|x: u64|
                        x != guest && old(self).displaced_guest(host, huddle, guest) != Some(x)
                            ==> (#[trigger] final(self).funds_of(x)) == old(self).funds_of(x)
                    &&& final(self).free_of(guest) as int == old(self).free_of(guest) + old(
                        self,
                    ).bid_release(host, huddle, guest) - value
                    &&& final(self).reserved_of(guest) as int == old(self).reserved_of(guest) - old(
                        self,
                    ).bid_release(host, huddle, guest) + value
                    &&& same_profiles(*old(self), *final(self))
                },
                Err(e) => {
                    &&& old(self).bid_err(guest, host, huddle, value, now) == Some(e)
                    &&& *final(self) == *old(self)
                },
            },
    {
        if host == guest {
            return Err(Error::HostsCannotBidTheirHuddles);
        }
        if !(0 < huddle && huddle <= self.ids.current()) {
            return Err(Error::InvalidHuddleId);
        }
        let pos = match self.registry.find_pos(host, huddle) {
            Some(p) => p,
            None => {
                return Err(Error::HostInvalidHuddleId);
            },
        };
        let h = self.registry.get_at(host, pos);
        if h.status == HuddleStatus::Concluded {
            return Err(Error::HuddleConcluded);
        }
        if h.status != HuddleStatus::Open && h.timestamp < now {
            return Err(Error::InvalidTimestamp);
        }
        let margin = self.config.min_bid_increment;
        if !(value > margin && value - margin > h.value) {
            return Err(Error::BidIsTooLow);
        }
        let slot = self.ledger.search(guest, huddle);
        if slot.is_err() && self.ledger.len_of(guest) >= self.config.max_bids {
            return Err(Error::TooManyBids);
        }
        proof {
            assert(old(self).guest_linked(host, old(self).huddles_of(host)[pos as int]));
        }
        let release: u64 = match h.guest {
            Some(g0) => if g0 == guest {
                h.value
            } else {
                0
            },
            None => 0,
        };
        proof {
            if release > 0 {
                // The caller's own winning reservation covers the
                // released amount, so the sum below cannot overflow.
                let jg = bid_idx(old(self).bids_of(guest), huddle);
                assert(bid_entry(old(self).bids_of(guest), huddle) == Some(
                    Bid { huddle, value: h.value, status: BidStatus::Winning },
                ));
                assert(0 <= jg < old(self).bids_of(guest).len());
                lemma_winning_total_at_least(old(self).bids_of(guest), jg);
                assert(release <= old(self).reserved_of(guest));
            }
        }
        if self.escrow.free_balance(guest) + release < value {
            return Err(Error::ReserveError);
        }
        self.bid_apply(guest, host, huddle, value, pos, h, slot);
        Ok(Event::BidCreated(guest, huddle, value))
    }

    /// Releases the reservation behind `g0`'s winning bid on `huddle`
    /// and marks that bid surpassed.
    fn surpass_displaced(&mut self, g0: u64, huddle: u64, amount: u64)
        requires
            old(self).ledger.wf(),
            old(self).escrow.wf(),
            old(self).conserved(),
            has_bid(old(self).bids_of(g0), huddle),
            bid_entry(old(self).bids_of(g0), huddle) == Some(
                Bid { huddle, value: amount, status: BidStatus::Winning },
            ),
        ensures
            final(self).config == old(self).config,
            final(self).ids == old(self).ids,
            final(self).registry == old(self).registry,
            final(self).profiles == old(self).profiles,
            final(self).ledger.wf(),
            final(self).escrow.wf(),
            final(self).ledger.max_per_guest == old(self).ledger.max_per_guest,
            final(self).bids_of(g0) == old(self).bids_of(g0).update(
                bid_idx(old(self).bids_of(g0), huddle),
                Bid { huddle, value: amount, status: BidStatus::Surpassed },
            ),
            forall|x: u64| x != g0 ==> (#[trigger] final(self).bids_of(x)) == old(self).bids_of(x),
            forall|x: u64| (#[trigger] final(self).ledger.stored(x)) == old(self).ledger.stored(x),
            final(self).funds_of(g0) == (Funds {
                free: (old(self).free_of(g0) + amount) as u64,
                reserved: (old(self).reserved_of(g0) - amount) as u64,
            }),
            final(self).free_of(g0) as int == old(self).free_of(g0) + amount,
            final(self).reserved_of(g0) as int == old(self).reserved_of(g0) - amount,
            forall|x: u64|
                x != g0 ==> (#[trigger] final(self).funds_of(x)) == old(self).funds_of(x),
    {
        let j0 = match self.ledger.search(g0, huddle) {
            Ok(j) => j,
            Err(_) => {
                proof {
                    assert(false);
                }
                0
            },
        };
        let b0 = self.ledger.get_at(g0, j0);
        proof {
            assert(b0 == Bid { huddle, value: amount, status: BidStatus::Winning });
            assert(old(self).reserved_of(g0) as int == winning_total(old(self).bids_of(g0)));
            lemma_winning_total_at_least(old(self).bids_of(g0), j0 as int);
            assert(amount <= old(self).reserved_of(g0));
        }
        self.escrow.unreserve(g0, b0.value);
        self.ledger.set_at(g0, j0, Bid { huddle, value: b0.value, status: BidStatus::Surpassed });
    }

    /// Records `guest`'s winning bid on `huddle` at the given slot of
    /// their collection and reserves its value.
    fn record_winning_bid(&mut self, guest: u64, huddle: u64, value: u64, at: Result<usize, usize>)
        requires
            old(self).ledger.wf(),
            old(self).escrow.wf(),
            value <= old(self).free_of(guest),
            match at {
                Ok(j) => {
                    &&& j < old(self).bids_of(guest).len()
                    &&& old(self).bids_of(guest)[j as int].huddle == huddle
                    &&& j as int == bid_idx(old(self).bids_of(guest), huddle)
                },
                Err(p) => {
                    &&& !has_bid(old(self).bids_of(guest), huddle)
                    &&& p <= old(self).bids_of(guest).len()
                    &&& old(self).bids_of(guest).len() < old(self).ledger.max_per_guest
                    &&& forall|jj: int|
                        0 <= jj < p ==> old(self).bids_of(guest)[jj].huddle < huddle
                    &&& forall|jj: int|
                        p <= jj < old(self).bids_of(guest).len() ==> old(self).bids_of(
                            guest,
                        )[jj].huddle > huddle
                },
            },
        ensures
            final(self).config == old(self).config,
            final(self).ids == old(self).ids,
            final(self).registry == old(self).registry,
            final(self).profiles == old(self).profiles,
            final(self).ledger.wf(),
            final(self).escrow.wf(),
            final(self).ledger.max_per_guest == old(self).ledger.max_per_guest,
            match at {
                Ok(j) => final(self).bids_of(guest) == old(self).bids_of(guest).update(
                    j as int,
                    Bid { huddle, value, status: BidStatus::Winning },
                ),
                Err(p) => final(self).bids_of(guest) == old(self).bids_of(guest).insert(
                    p as int,
                    Bid { huddle, value, status: BidStatus::Winning },
                ),
            },
            final(self).ledger.stored(guest),
            forall|x: u64| x != guest ==> (#[trigger] final(self).bids_of(x)) == old(self).bids_of(x),
            forall|x: u64|
                x != guest ==> (#[trigger] final(self).ledger.stored(x)) == old(
                    self,
                ).ledger.stored(x),
            final(self).funds_of(guest) == (Funds {
                free: (old(self).free_of(guest) - value) as u64,
                reserved: (old(self).reserved_of(guest) + value) as u64,
            }),
            final(self).free_of(guest) as int == old(self).free_of(guest) - value,
            final(self).reserved_of(guest) as int == old(self).reserved_of(guest) + value,
            forall|x: u64|
                x != guest ==> (#[trigger] final(self).funds_of(x)) == old(self).funds_of(x),
    {
        let nb = Bid { huddle, value, status: BidStatus::Winning };
        match at {
            Ok(j) => {
                self.ledger.set_at(guest, j, nb);
            },
            Err(p) => {
                self.ledger.insert_at(guest, p, nb);
            },
        }
        self.escrow.reserve(guest, value);
    }

    /// The mutation phase of `bid`, entered once every check has
    /// passed: releases the displaced guest's reservation, records the
    /// caller's winning bid, reserves its value and updates the huddle.
    #[verifier::rlimit(100)]
    fn bid_apply(
        &mut self,
        guest: u64,
        host: u64,
        huddle: u64,
        value: u64,
        pos: usize,
        h: Huddle,
        slot: Result<usize, usize>,
    )
        requires
            old(self).wf(),
            host != guest,
            pos < old(self).huddles_of(host).len(),
            old(self).huddles_of(host)[pos as int] == h,
            pos as int == huddle_idx(old(self).huddles_of(host), huddle),
            has_huddle(old(self).huddles_of(host), huddle),
            h.id == huddle,
            !(h.status is Concluded),
            match slot {
                Ok(j) => {
                    &&& has_bid(old(self).bids_of(guest), huddle)
                    &&& j < old(self).bids_of(guest).len()
                    &&& j as int == bid_idx(old(self).bids_of(guest), huddle)
                },
                Err(p) => {
                    &&& !has_bid(old(self).bids_of(guest), huddle)
                    &&& p <= old(self).bids_of(guest).len()
                    &&& old(self).bids_of(guest).len() < old(self).config.max_bids
                    &&& forall|jj: int|
                        0 <= jj < p ==> old(self).bids_of(guest)[jj].huddle < huddle
                    &&& forall|jj: int|
                        p <= jj < old(self).bids_of(guest).len() ==> old(self).bids_of(
                            guest,
                        )[jj].huddle > huddle
                },
            },
            old(self).free_of(guest) + old(self).bid_release(host, huddle, guest) >= value,
        ensures
            final(self).wf(),
            final(self).config == old(self).config,
            final(self).counter() == old(self).counter(),
            final(self).huddles_of(host) == old(self).huddles_of(host).update(
                huddle_idx(old(self).huddles_of(host), huddle),
                Huddle {
                    id: huddle,
                    timestamp: old(self).huddle_at(host, huddle).timestamp,
                    guest: Some(guest),
                    value,
                    status: if old(self).huddle_at(host, huddle).status is Open {
                        HuddleStatus::Open
                    } else {
                        HuddleStatus::InAuction
                    },
                    stars: old(self).huddle_at(host, huddle).stars,
                },
            ),
            forall|x: u64|
                x != host ==> (#[trigger] final(self).huddles_of(x)) == old(self).huddles_of(x),
            forall|x: u64|
                (#[trigger] final(self).registry.stored(x)) == old(self).registry.stored(x),
            bid_entry(final(self).bids_of(guest), huddle) == Some(
                Bid { huddle, value, status: BidStatus::Winning },
            ),
            forall|x: u64|
                x != huddle ==> bid_entry(final(self).bids_of(guest), x) == bid_entry(
                    old(self).bids_of(guest),
                    x,
                ),
            final(self).bids_of(guest).len() == old(self).bids_of(guest).len() + (if has_bid(
                old(self).bids_of(guest),
                huddle,
            ) {
                0int
            } else {
                1int
            }),
            final(self).ledger.stored(guest),
            forall|x: u64|
                x != guest ==> (#[trigger] final(self).ledger.stored(x)) == old(
                    self,
                ).ledger.stored(x),
            old(self).displaced_guest(host, huddle, guest) matches Some(g0) ==> {
                &&& final(self).bids_of(g0) == old(self).bids_of(g0).update(
                    bid_idx(old(self).bids_of(g0), huddle),
                    Bid {
                        huddle,
                        value: old(self).huddle_at(host, huddle).value,
                        status: BidStatus::Surpassed,
                    },
                )
                &&& final(self).funds_of(g0) == (Funds {
                    free: (old(self).free_of(g0) + old(self).huddle_at(host, huddle).value) as u64,
                    reserved: (old(self).reserved_of(g0) - old(self).huddle_at(
                        host,
                        huddle,
                    ).value) as u64,
                })
            },
            forall|x: u64|
                x != guest && old(self).displaced_guest(host, huddle, guest) != Some(x) ==> (
                #[trigger] final(self).bids_of(x)) == old(self).bids_of(x),
            forall|x: u64|
                x != guest && old(self).displaced_guest(host, huddle, guest) != Some(x) ==> (
                #[trigger] final(self).funds_of(x)) == old(self).funds_of(x),
            final(self).free_of(guest) as int == old(self).free_of(guest) + old(self).bid_release(
                host,
                huddle,
                guest,
            ) - value,
            final(self).reserved_of(guest) as int == old(self).reserved_of(guest) - old(
                self,
            ).bid_release(host, huddle, guest) + value,
            same_profiles(*old(self), *final(self)),
    {
        proof {
            assert(old(self).guest_linked(host, old(self).huddles_of(host)[pos as int]));
            assert(old(self).huddle_at(host, huddle) == h);
        }
        self.bid_apply_ledger(guest, huddle, value, h, slot);
        let ghost midl = *self;
        let h2 = Huddle {
            id: huddle,
            timestamp: h.timestamp,
            guest: Some(guest),
            value,
            status: if h.status == HuddleStatus::Open {
                HuddleStatus::Open
            } else {
                HuddleStatus::InAuction
            },
            stars: h.stars,
        };
        self.registry.set_at(host, pos, h2);
        proof {
            let pg: int = match slot {
                Ok(_) => 0,
                Err(p) => p as int,
            };
            let pre = *old(self);
            let post = *self;
            assert(bid_step(pre, post, host, pos as int, guest, value, pg, h2)) by {
                assert(post.ledger == midl.ledger);
                assert(post.escrow == midl.escrow);
                assert(post.profiles == midl.profiles);
                assert(midl.registry == pre.registry);
                assert(post.huddles_of(host) == pre.huddles_of(host).update(pos as int, h2));
                assert forall|x: u64| x != host implies (#[trigger] post.huddles_of(x))
                    == pre.huddles_of(x) by {}
                assert forall|x: u64| (#[trigger] post.registry.stored(x)) == pre.registry.stored(
                    x,
                ) by {}
                assert(post.ledger.stored(guest));
                assert forall|x: u64| x != guest implies (#[trigger] post.ledger.stored(x))
                    == pre.ledger.stored(x) by {
                    assert(post.ledger.stored(x) == midl.ledger.stored(x));
                }
                assert(same_profiles(pre, post)) by {
                    assert(post.profiles@ == pre.profiles@);
                }
                if has_bid(pre.bids_of(guest), huddle) {
                    assert(post.bids_of(guest) == pre.bids_of(guest).update(
                        bid_idx(pre.bids_of(guest), huddle),
                        Bid { huddle, value, status: BidStatus::Winning },
                    ));
                }
                match h.guest {
                    Some(g0) => {
                        if g0 != guest {
                            assert(post.bids_of(g0) == midl.bids_of(g0));
                            assert(post.funds_of(g0) == midl.funds_of(g0));
                            assert forall|x: u64|
                                x != guest && x != g0 implies (#[trigger] post.bids_of(x))
                                == pre.bids_of(x) by {
                                assert(post.bids_of(x) == midl.bids_of(x));
                            }
                            assert forall|x: u64|
                                x != guest && x != g0 implies (#[trigger] post.reserved_of(x))
                                == pre.reserved_of(x) by {
                                assert(post.funds_of(x) == midl.funds_of(x));
                                assert(midl.funds_of(x) == pre.funds_of(x));
                            }
                            assert forall|x: u64|
                                x != guest && x != g0 implies (#[trigger] post.funds_of(x))
                                == pre.funds_of(x) by {
                                assert(post.funds_of(x) == midl.funds_of(x));
                            }
                        } else {
                            assert forall|x: u64| x != guest implies (#[trigger] post.bids_of(x))
                                == pre.bids_of(x) by {
                                assert(post.bids_of(x) == midl.bids_of(x));
                            }
                            assert forall|x: u64|
                                x != guest implies (#[trigger] post.reserved_of(x))
                                == pre.reserved_of(x) by {
                                assert(post.funds_of(x) == midl.funds_of(x));
                                assert(midl.funds_of(x) == pre.funds_of(x));
                            }
                            assert forall|x: u64| x != guest implies (#[trigger] post.funds_of(x))
                                == pre.funds_of(x) by {
                                assert(post.funds_of(x) == midl.funds_of(x));
                            }
                        }
                    },
                    None => {
                        assert forall|x: u64| x != guest implies (#[trigger] post.bids_of(x))
                            == pre.bids_of(x) by {
                            assert(post.bids_of(x) == midl.bids_of(x));
                        }
                        assert forall|x: u64| x != guest implies (#[trigger] post.reserved_of(x))
                            == pre.reserved_of(x) by {
                            assert(post.funds_of(x) == midl.funds_of(x));
                            assert(midl.funds_of(x) == pre.funds_of(x));
                        }
                        assert forall|x: u64| x != guest implies (#[trigger] post.funds_of(x))
                            == pre.funds_of(x) by {
                            assert(post.funds_of(x) == midl.funds_of(x));
                        }
                    },
                }
                assert(post.free_of(guest) == midl.free_of(guest));
                assert(post.reserved_of(guest) == midl.reserved_of(guest));
            }
            lemma_bid_finish(pre, post, host, pos as int, guest, huddle, value, pg, h2);
        }
    }

    /// The ledger and escrow side of a successful bid: releases the
    /// displaced guest's reservation and surpasses their bid, then
    /// records the caller's winning bid and reserves its value.
    #[verifier::rlimit(100)]
    fn bid_apply_ledger(
        &mut self,
        guest: u64,
        huddle: u64,
        value: u64,
        h: Huddle,
        slot: Result<usize, usize>,
    )
        requires
            old(self).ledger.wf(),
            old(self).escrow.wf(),
            old(self).conserved(),
            h.id == huddle,
            h.guest matches Some(g0) ==> has_bid(old(self).bids_of(g0), huddle) && bid_entry(
                old(self).bids_of(g0),
                huddle,
            ) == Some(Bid { huddle, value: h.value, status: BidStatus::Winning }),
            match slot {
                Ok(j) => {
                    &&& has_bid(old(self).bids_of(guest), huddle)
                    &&& j < old(self).bids_of(guest).len()
                    &&& j as int == bid_idx(old(self).bids_of(guest), huddle)
                },
                Err(p) => {
                    &&& !has_bid(old(self).bids_of(guest), huddle)
                    &&& p <= old(self).bids_of(guest).len()
                    &&& old(self).bids_of(guest).len() < old(self).ledger.max_per_guest
                    &&& forall|jj: int|
                        0 <= jj < p ==> old(self).bids_of(guest)[jj].huddle < huddle
                    &&& forall|jj: int|
                        p <= jj < old(self).bids_of(guest).len() ==> old(self).bids_of(
                            guest,
                        )[jj].huddle > huddle
                },
            },
            old(self).free_of(guest) + (if h.guest == Some(guest) {
                h.value as int
            } else {
                0int
            }) >= value,
        ensures
            final(self).config == old(self).config,
            final(self).ids == old(self).ids,
            final(self).registry == old(self).registry,
            final(self).profiles == old(self).profiles,
            final(self).ledger.wf(),
            final(self).escrow.wf(),
            final(self).ledger.max_per_guest == old(self).ledger.max_per_guest,
            final(self).ledger.stored(guest),
            forall|x: u64|
                x != guest ==> (#[trigger] final(self).ledger.stored(x)) == old(
                    self,
                ).ledger.stored(x),
            final(self).bids_of(guest) == (if has_bid(old(self).bids_of(guest), huddle) {
                old(self).bids_of(guest).update(
                    bid_idx(old(self).bids_of(guest), huddle),
                    Bid { huddle, value, status: BidStatus::Winning },
                )
            } else {
                old(self).bids_of(guest).insert(
                    (match slot {
                        Ok(_) => 0int,
                        Err(p) => p as int,
                    }),
                    Bid { huddle, value, status: BidStatus::Winning },
                )
            }),
            final(self).free_of(guest) as int == old(self).free_of(guest) + (if h.guest == Some(
                guest,
            ) {
                h.value as int
            } else {
                0
            }) - value,
            final(self).reserved_of(guest) as int == old(self).reserved_of(guest) - (if h.guest
                == Some(guest) {
                h.value as int
            } else {
                0
            }) + value,
            match h.guest {
                Some(g0) => if g0 == guest {
                    &&& forall|x: u64|
                        x != guest ==> (#[trigger] final(self).bids_of(x)) == old(self).bids_of(x)
                    &&& forall|x: u64|
                        x != guest ==> (#[trigger] final(self).reserved_of(x)) == old(
                            self,
                        ).reserved_of(x)
                    &&& forall|x: u64|
                        x != guest ==> (#[trigger] final(self).funds_of(x)) == old(self).funds_of(
                            x,
                        )
                } else {
                    &&& final(self).bids_of(g0) == old(self).bids_of(g0).update(
                        bid_idx(old(self).bids_of(g0), huddle),
                        Bid { huddle, value: h.value, status: BidStatus::Surpassed },
                    )
                    &&& final(self).reserved_of(g0) as int == old(self).reserved_of(g0) - h.value
                    &&& final(self).funds_of(g0) == (Funds {
                        free: (old(self).free_of(g0) + h.value) as u64,
                        reserved: (old(self).reserved_of(g0) - h.value) as u64,
                    })
                    &&& forall|x: u64|
                        x != guest && x != g0 ==> (#[trigger] final(self).bids_of(x)) == old(
                            self,
                        ).bids_of(x)
                    &&& forall|x: u64|
                        x != guest && x != g0 ==> (#[trigger] final(self).reserved_of(x)) == old(
                            self,
                        ).reserved_of(x)
                    &&& forall|x: u64|
                        x != guest && x != g0 ==> (#[trigger] final(self).funds_of(x)) == old(
                            self,
                        ).funds_of(x)
                },
                None => {
                    &&& forall|x: u64|
                        x != guest ==> (#[trigger] final(self).bids_of(x)) == old(self).bids_of(x)
                    &&& forall|x: u64|
                        x != guest ==> (#[trigger] final(self).reserved_of(x)) == old(
                            self,
                        ).reserved_of(x)
                    &&& forall|x: u64|
                        x != guest ==> (#[trigger] final(self).funds_of(x)) == old(self).funds_of(
                            x,
                        )
                },
            },
    {
        if let Some(g0) = h.guest {
            self.surpass_displaced(g0, huddle, h.value);
        }
        let ghost mid = *self;
        proof {
            // The slot computed before the release step still fits the
            // caller's collection: the release touched, at most, the
            // caller's entry for this very huddle, keeping positions
            // and huddle identifiers as they were.
            assert((match slot {
                Ok(j) => {
                    &&& j < mid.bids_of(guest).len()
                    &&& mid.bids_of(guest)[j as int].huddle == huddle
                    &&& j as int == bid_idx(mid.bids_of(guest), huddle)
                },
                Err(p) => {
                    &&& !has_bid(mid.bids_of(guest), huddle)
                    &&& p <= mid.bids_of(guest).len()
                    &&& mid.bids_of(guest).len() < mid.ledger.max_per_guest
                    &&& forall|jj: int|
                        0 <= jj < p ==> mid.bids_of(guest)[jj].huddle < huddle
                    &&& forall|jj: int|
                        p <= jj < mid.bids_of(guest).len() ==> mid.bids_of(
                            guest,
                        )[jj].huddle > huddle
                },
            })) by {
                if h.guest == Some(guest) {
                    let s = old(self).bids_of(guest);
                    let j0 = bid_idx(s, huddle);
                    assert(mid.bids_of(guest) == s.update(
                        j0,
                        Bid { huddle, value: h.value, status: BidStatus::Surpassed },
                    ));
                    assert(mid.bids_of(guest)[j0].huddle == huddle);
                    assert(has_bid(mid.bids_of(guest), huddle));
                    lemma_sorted_bid_unique(
                        mid.bids_of(guest),
                        bid_idx(mid.bids_of(guest), huddle),
                        j0,
                    );
                }
            }
        }
        self.record_winning_bid(guest, huddle, value, slot);
        proof {
            if h.guest == Some(guest) {
                let s = old(self).bids_of(guest);
                let j0 = bid_idx(s, huddle);
                assert(self.bids_of(guest) =~= s.update(
                    j0,
                    Bid { huddle, value, status: BidStatus::Winning },
                ));
            }
        }
    }

    /// The error `claim` returns on these inputs, if any.
    pub open spec fn claim_err(self, host: u64, huddle: u64, now: u64) -> Option<Error> {
        if !(0 < huddle && huddle <= self.counter()) {
            Some(Error::InvalidHuddleId)
        } else if !has_huddle(self.huddles_of(host), huddle) {
            Some(Error::InvalidClaim)
        } else if self.huddle_at(host, huddle).status is Concluded {
            Some(Error::HuddleConcluded)
        } else if self.huddle_at(host, huddle).timestamp >= now {
            Some(Error::TimestampNotReached)
        } else if self.huddle_at(host, huddle).guest is Some && self.free_of(host)
            + self.reserved_of(host) + self.huddle_at(host, huddle).value > u64::MAX {
            Some(Error::RepatriateError)
        } else {
            None
        }
    }

    /// Once a huddle's scheduled moment lies strictly in the past, its
    /// host claims it: the winning guest's reservation (if any guest
    /// bid at all) is repatriated to the host, the guest's bid becomes
    /// the winner bid, and the huddle is concluded.  A concluded huddle
    /// can never be claimed again.
    #[verifier::rlimit(100)]
    pub fn claim(&mut self, host: u64, huddle: u64, now: u64) -> (r: Result<Event, Error>)
        requires
            old(self).wf(),
        ensures
            final(self).wf(),
            final(self).config == old(self).config,
            final(self).counter() == old(self).counter(),
            match r {
                Ok(ev) => {
                    &&& old(self).claim_err(host, huddle, now) is None
                    &&& ev == Event::Claimed(host, huddle, old(self).huddle_at(host, huddle).value)
                    &&& final(self).huddles_of(host) == old(self).huddles_of(host).update(
                        huddle_idx(old(self).huddles_of(host), huddle),
                        Huddle {
                            id: huddle,
                            timestamp: old(self).huddle_at(host, huddle).timestamp,
                            guest: old(self).huddle_at(host, huddle).guest,
                            value: old(self).huddle_at(host, huddle).value,
                            status: HuddleStatus::Concluded,
                            stars: old(self).huddle_at(host, huddle).stars,
                        },
                    )
                    &&& forall|x: u64|
                        x != host ==> (#[trigger] final(self).huddles_of(x)) == old(
                            self,
                        ).huddles_of(x)
                    &&& forall|x: u64|
                        (#[trigger] final(self).registry.stored(x)) == old(self).registry.stored(x)
                    &&& forall|x: u64|
                        (#[trigger] final(self).ledger.stored(x)) == old(self).ledger.stored(x)
                    &&& same_profiles(*old(self), *final(self))
                    &&& (old(self).huddle_at(host, huddle).guest is None ==> same_bids(
                        *old(self),
                        *final(self),
                    ) && same_escrow(*old(self), *final(self)))
                    &&& (old(self).huddle_at(host, huddle).guest matches Some(g) ==> {
                        &&& final(self).bids_of(g) == old(self).bids_of(g).update(
                            bid_idx(old(self).bids_of(g), huddle),
                            Bid {
                                huddle,
                                value: old(self).huddle_at(host, huddle).value,
                                status: BidStatus::Winner,
                            },
                        )
                        &&& forall|x: u64|
                            x != g ==> (#[trigger] final(self).bids_of(x)) == old(self).bids_of(x)
                        &&& final(self).funds_of(g) == (Funds {
                            free: old(self).free_of(g),
                            reserved: (old(self).reserved_of(g) - old(self).huddle_at(
                                host,
                                huddle,
                            ).value) as u64,
                        })
                        &&& final(self).funds_of(host) == (Funds {
                            free: (old(self).free_of(host) + old(self).huddle_at(
                                host,
                                huddle,
                            ).value) as u64,
                            reserved: old(self).reserved_of(host),
                        })
                        &&& forall|x: u64|
                            x != g && x != host ==> (#[trigger] final(self).funds_of(x)) == old(
                                self,
                            ).funds_of(x)
                    })
                },
                Err(e) => {
                    &&& old(self).claim_err(host, huddle, now) == Some(e)
                    &&& *final(self) == *old(self)
                },
            },
    {
        if !(0 < huddle && huddle <= self.ids.current()) {
            return Err(Error::InvalidHuddleId);
        }
        let pos = match self.registry.find_pos(host, huddle) {
            Some(p) => p,
            None => {
                return Err(Error::InvalidClaim);
            },
        };
        let h = self.registry.get_at(host, pos);
        if h.status == HuddleStatus::Concluded {
            return Err(Error::HuddleConcluded);
        }
        if h.timestamp >= now {
            return Err(Error::TimestampNotReached);
        }
        proof {
            assert(old(self).guest_linked(host, old(self).huddles_of(host)[pos as int]));
        }
        if let Some(g) = h.guest {
            let host_free = self.escrow.free_balance(host);
            let host_reserved = self.escrow.reserved_balance(host);
            if !(h.value <= u64::MAX - host_free && host_reserved <= (u64::MAX - host_free)
                - h.value) {
                return Err(Error::RepatriateError);
            }
            let j0 = match self.ledger.search(g, huddle) {
                Ok(j) => j,
                Err(_) => {
                    proof {
                        assert(has_bid(old(self).bids_of(g), huddle));
                        assert(false);
                    }
                    return Err(Error::RepatriateError);
                },
            };
            let b0 = self.ledger.get_at(g, j0);
            proof {
                assert(bid_entry(old(self).bids_of(g), huddle) == Some(
                    Bid { huddle, value: h.value, status: BidStatus::Winning },
                ));
                assert(b0 == Bid { huddle, value: h.value, status: BidStatus::Winning });
                assert(old(self).conserved());
                assert(old(self).reserved_of(g) as int == winning_total(old(self).bids_of(g)));
                lemma_winning_total_at_least(old(self).bids_of(g), j0 as int);
                assert(b0.value <= old(self).reserved_of(g));
                assert(g != host);
            }
            self.escrow.repatriate(g, host, b0.value);
            self.ledger.set_at(g, j0, Bid { huddle, value: b0.value, status: BidStatus::Winner });
        }
        let h2 = Huddle {
            id: huddle,
            timestamp: h.timestamp,
            guest: h.guest,
            value: h.value,
            status: HuddleStatus::Concluded,
            stars: h.stars,
        };
        self.registry.set_at(host, pos, h2);
        proof {
            lemma_wf_after_claim(*old(self), *self, host, pos as int);
        }
        Ok(Event::Claimed(host, huddle, h.value))
    }

    /// The error `rate` returns on these inputs, if any.
    pub open spec fn rate_err(
        self,
        guest: u64,
        host: u64,
        huddle: u64,
        stars: u8,
        now: u64,
    ) -> Option<Error> {
        if host == guest {
            Some(Error::HostsCannotRateTheirHuddles)
        } else if stars > 5 {
            Some(Error::MaxStarValueIsFive)
        } else if !(0 < huddle && huddle <= self.counter()) {
            Some(Error::InvalidHuddleId)
        } else if !has_huddle(self.huddles_of(host), huddle) {
            Some(Error::HostInvalidHuddleId)
        } else if self.huddle_at(host, huddle).timestamp >= now {
            Some(Error::TimestampNotReached)
        } else if !(bid_entry(self.bids_of(guest), huddle) matches Some(b)
            && b.status is Winner) {
            Some(Error::NotWinnerBid)
        } else {
            None
        }
    }

    /// The guest whose bid won a concluded huddle rates it with up to
    /// five stars, overwriting any earlier rating.  Any other caller
    /// fails and changes nothing.
    #[verifier::rlimit(100)]
    pub fn rate(&mut self, guest: u64, host: u64, huddle: u64, stars: u8, now: u64) -> (r: Result<
        Event,
        Error,
    >)
        requires
            old(self).wf(),
        ensures
            final(self).wf(),
            final(self).config == old(self).config,
            final(self).counter() == old(self).counter(),
            match r {
                Ok(ev) => {
                    &&& old(self).rate_err(guest, host, huddle, stars, now) is None
                    &&& ev == Event::RatingSent(guest, huddle, stars)
                    &&& final(self).huddles_of(host) == old(self).huddles_of(host).update(
                        huddle_idx(old(self).huddles_of(host), huddle),
                        Huddle {
                            id: huddle,
                            timestamp: old(self).huddle_at(host, huddle).timestamp,
                            guest: old(self).huddle_at(host, huddle).guest,
                            value: old(self).huddle_at(host, huddle).value,
                            status: old(self).huddle_at(host, huddle).status,
                            stars,
                        },
                    )
                    &&& forall|x: u64|
                        x != host ==> (#[trigger] final(self).huddles_of(x)) == old(
                            self,
                        ).huddles_of(x)
                    &&& forall|x: u64|
                        (#[trigger] final(self).registry.stored(x)) == old(self).registry.stored(x)
                    &&& same_profiles(*old(self), *final(self))
                    &&& same_bids(*old(self), *final(self))
                    &&& same_escrow(*old(self), *final(self))
                },
                Err(e) => {
                    &&& old(self).rate_err(guest, host, huddle, stars, now) == Some(e)
                    &&& *final(self) == *old(self)
                },
            },
    {
        if host == guest {
            return Err(Error::HostsCannotRateTheirHuddles);
        }
        if stars > 5 {
            return Err(Error::MaxStarValueIsFive);
        }
        if !(0 < huddle && huddle <= self.ids.current()) {
            return Err(Error::InvalidHuddleId);
        }
        let pos = match self.registry.find_pos(host, huddle) {
            Some(p) => p,
            None => {
                return Err(Error::HostInvalidHuddleId);
            },
        };
        let h = self.registry.get_at(host, pos);
        if h.timestamp >= now {
            return Err(Error::TimestampNotReached);
        }
        let winner = match self.ledger.search(guest, huddle) {
            Ok(j) => self.ledger.get_at(guest, j).status == BidStatus::Winner,
            Err(_) => false,
        };
        if !winner {
            return Err(Error::NotWinnerBid);
        }
        let h2 = Huddle {
            id: huddle,
            timestamp: h.timestamp,
            guest: h.guest,
            value: h.value,
            status: h.status,
            stars,
        };
        self.registry.set_at(host, pos, h2);
        proof {
            lemma_wf_after_huddle_tweak(*old(self), *self, host, pos as int, h2);
        }
        Ok(Event::RatingSent(guest, huddle, stars))
    }
}

/// A fresh copy of a vector of plain values.
fn copied<T: Copy>(v: &Vec<T>) -> (r: Vec<T>)
    ensures
        r@ == v@,
{
    let mut r: Vec<T> = Vec::new();
    let mut i: usize = 0;
    while i < v.len()
        invariant
            i <= v.len(),
            r@ == v@.subrange(0, i as int),
        decreases v.len() - i,
    {
        let x: T = v[i];
        r.push(x);
        proof {
            assert(r@ =~= v@.subrange(0, i as int + 1));
        }
        i = i + 1;
    }
    proof {
        assert(r@ =~= v@);
    }
    r
}

/// Well-formedness carries over to an engine that appended one huddle
/// with the freshly issued identifier and no guest, touching nothing
/// else.
#[verifier::rlimit(100)]
proof fn lemma_wf_after_create(pre: Engine, post: Engine, host: u64, h: Huddle)
    requires
        pre.wf(),
        pre.counter() < u64::MAX,
        h.id == pre.counter() + 1,
        h.guest is None,
        h.stars == 0,
        post.config == pre.config,
        post.ids.last_id() == pre.counter() + 1,
        post.registry.wf(),
        post.ledger.wf(),
        post.escrow.wf(),
        post.registry.max_per_host == pre.registry.max_per_host,
        post.ledger.max_per_guest == pre.ledger.max_per_guest,
        post.huddles_of(host) == pre.huddles_of(host).push(h),
        forall|x: u64| x != host ==> (#[trigger] post.huddles_of(x)) == pre.huddles_of(x),
        same_bids(pre, post),
        forall|x: u64| (#[trigger] post.reserved_of(x)) == pre.reserved_of(x),
    ensures
        post.wf(),
{
    let n = pre.huddles_of(host).len() as int;
    assert forall|h2: u64, i: int| 0 <= i < post.huddles_of(h2).len() implies post.huddle_ok(
        #[trigger] post.huddles_of(h2)[i],
    ) by {
        if h2 == host && i == n {
            assert(post.huddles_of(h2)[i] == h);
        } else {
            assert(post.huddles_of(h2)[i] == pre.huddles_of(h2)[i]);
            assert(pre.huddle_ok(pre.huddles_of(h2)[i]));
        }
    }
    assert forall|g: u64, j: int| 0 <= j < post.bids_of(g).len() implies 1 <= (
    #[trigger] post.bids_of(g)[j]).huddle <= post.counter() by {
        assert(post.bids_of(g) == pre.bids_of(g));
        assert(1 <= pre.bids_of(g)[j].huddle <= pre.counter());
    }
    assert forall|h1: u64, i1: int, h2: u64, i2: int|
        0 <= i1 < post.huddles_of(h1).len() && 0 <= i2 < post.huddles_of(h2).len() && (h1 != h2
            || i1 != i2) implies (#[trigger] post.huddles_of(h1)[i1]).id != (
    #[trigger] post.huddles_of(h2)[i2]).id by {
        if h1 == host && i1 == n {
            assert(pre.huddle_ok(pre.huddles_of(h2)[i2]));
            assert(post.huddles_of(h2)[i2] == pre.huddles_of(h2)[i2]);
        } else if h2 == host && i2 == n {
            assert(pre.huddle_ok(pre.huddles_of(h1)[i1]));
            assert(post.huddles_of(h1)[i1] == pre.huddles_of(h1)[i1]);
        } else {
            assert(post.huddles_of(h1)[i1] == pre.huddles_of(h1)[i1]);
            assert(post.huddles_of(h2)[i2] == pre.huddles_of(h2)[i2]);
            assert(pre.huddles_of(h1)[i1].id != pre.huddles_of(h2)[i2].id);
        }
    }
    assert forall|h2: u64, i: int| 0 <= i < post.huddles_of(h2).len() implies post.guest_linked(
        h2,
        #[trigger] post.huddles_of(h2)[i],
    ) by {
        if h2 == host && i == n {
            assert(post.huddles_of(h2)[i] == h);
        } else {
            assert(post.huddles_of(h2)[i] == pre.huddles_of(h2)[i]);
            let hh = pre.huddles_of(h2)[i];
            assert(pre.guest_linked(h2, hh));
            if let Some(g) = hh.guest {
                assert(post.bids_of(g) == pre.bids_of(g));
            }
        }
    }
    assert forall|g: u64, j: int| 0 <= j < post.bids_of(g).len() implies post.winning_backed(
        g,
        #[trigger] post.bids_of(g)[j],
    ) by {
        assert(post.bids_of(g) == pre.bids_of(g));
        let b = pre.bids_of(g)[j];
        assert(pre.winning_backed(g, b));
        if b.status is Winning {
            let (hw, iw): (u64, int) = choose|hw: u64, iw: int|
                0 <= iw < pre.huddles_of(hw).len() && (#[trigger] pre.huddles_of(hw)[iw]).id
                    == b.huddle && pre.huddles_of(hw)[iw].guest == Some(g) && pre.huddles_of(
                    hw,
                )[iw].value == b.value && !(pre.huddles_of(hw)[iw].status is Concluded);
            assert(post.huddles_of(hw)[iw] == pre.huddles_of(hw)[iw]);
            assert(0 <= iw < post.huddles_of(hw).len() && (#[trigger] post.huddles_of(hw)[iw]).id
                == b.huddle && post.huddles_of(hw)[iw].guest == Some(g) && post.huddles_of(
                hw,
            )[iw].value == b.value && !(post.huddles_of(hw)[iw].status is Concluded));
        }
    }
    assert forall|g: u64| (#[trigger] post.reserved_of(g)) as int == winning_total(
        post.bids_of(g),
    ) by {
        assert(post.bids_of(g) == pre.bids_of(g));
        assert(pre.reserved_of(g) as int == winning_total(pre.bids_of(g)));
    }
}

/// Well-formedness carries over to an engine that appended one running
/// huddle with the freshly issued identifier and guest `g`, appended
/// the matching winning bid for `g`, and reserved its value from `g`.
#[verifier::rlimit(100)]
proof fn lemma_wf_after_open(pre: Engine, post: Engine, host: u64, g: u64, h: Huddle)
    requires
        pre.wf(),
        pre.counter() < u64::MAX,
        h.id == pre.counter() + 1,
        h.guest == Some(g),
        g != host,
        h.stars == 0,
        !(h.status is Concluded),
        post.config == pre.config,
        post.ids.last_id() == pre.counter() + 1,
        post.registry.wf(),
        post.ledger.wf(),
        post.escrow.wf(),
        post.registry.max_per_host == pre.registry.max_per_host,
        post.ledger.max_per_guest == pre.ledger.max_per_guest,
        post.huddles_of(host) == pre.huddles_of(host).push(h),
        forall|x: u64| x != host ==> (#[trigger] post.huddles_of(x)) == pre.huddles_of(x),
        post.bids_of(g) == pre.bids_of(g).push(
            Bid { huddle: h.id, value: h.value, status: BidStatus::Winning },
        ),
        forall|x: u64| x != g ==> (#[trigger] post.bids_of(x)) == pre.bids_of(x),
        post.reserved_of(g) == pre.reserved_of(g) + h.value,
        forall|x: u64| x != g ==> (#[trigger] post.reserved_of(x)) == pre.reserved_of(x),
    ensures
        post.wf(),
{
    let n = pre.huddles_of(host).len() as int;
    let m = pre.bids_of(g).len() as int;
    let nb = Bid { huddle: h.id, value: h.value, status: BidStatus::Winning };
    assert(post.bids_of(g) =~= pre.bids_of(g).insert(m, nb));
    assert forall|j: int| 0 <= j < m implies pre.bids_of(g)[j].huddle < nb.huddle by {
        assert(1 <= pre.bids_of(g)[j].huddle <= pre.counter());
    }
    lemma_entries_after_insert(pre.bids_of(g), m, nb);
    lemma_winning_total_insert(pre.bids_of(g), m, nb);
    assert forall|h2: u64, i: int| 0 <= i < post.huddles_of(h2).len() implies post.huddle_ok(
        #[trigger] post.huddles_of(h2)[i],
    ) by {
        if h2 == host && i == n {
            assert(post.huddles_of(h2)[i] == h);
        } else {
            assert(post.huddles_of(h2)[i] == pre.huddles_of(h2)[i]);
            assert(pre.huddle_ok(pre.huddles_of(h2)[i]));
        }
    }
    assert forall|g2: u64, j: int| 0 <= j < post.bids_of(g2).len() implies 1 <= (
    #[trigger] post.bids_of(g2)[j]).huddle <= post.counter() by {
        if g2 == g && j == m {
            assert(post.bids_of(g2)[j] == nb);
        } else {
            assert(post.bids_of(g2)[j] == pre.bids_of(g2)[j]);
            assert(1 <= pre.bids_of(g2)[j].huddle <= pre.counter());
        }
    }
    assert forall|h1: u64, i1: int, h2: u64, i2: int|
        0 <= i1 < post.huddles_of(h1).len() && 0 <= i2 < post.huddles_of(h2).len() && (h1 != h2
            || i1 != i2) implies (#[trigger] post.huddles_of(h1)[i1]).id != (
    #[trigger] post.huddles_of(h2)[i2]).id by {
        if h1 == host && i1 == n {
            assert(pre.huddle_ok(pre.huddles_of(h2)[i2]));
            assert(post.huddles_of(h2)[i2] == pre.huddles_of(h2)[i2]);
        } else if h2 == host && i2 == n {
            assert(pre.huddle_ok(pre.huddles_of(h1)[i1]));
            assert(post.huddles_of(h1)[i1] == pre.huddles_of(h1)[i1]);
        } else {
            assert(post.huddles_of(h1)[i1] == pre.huddles_of(h1)[i1]);
            assert(post.huddles_of(h2)[i2] == pre.huddles_of(h2)[i2]);
            assert(pre.huddles_of(h1)[i1].id != pre.huddles_of(h2)[i2].id);
        }
    }
    assert forall|h2: u64, i: int| 0 <= i < post.huddles_of(h2).len() implies post.guest_linked(
        h2,
        #[trigger] post.huddles_of(h2)[i],
    ) by {
        if h2 == host && i == n {
            assert(post.huddles_of(h2)[i] == h);
            assert(bid_entry(post.bids_of(g), h.id) == Some(nb));
        } else {
            assert(post.huddles_of(h2)[i] == pre.huddles_of(h2)[i]);
            let hh = pre.huddles_of(h2)[i];
            assert(pre.guest_linked(h2, hh));
            assert(pre.huddle_ok(hh));
            if let Some(g2) = hh.guest {
                if g2 == g {
                    assert(hh.id != nb.huddle);
                    assert(bid_entry(post.bids_of(g), hh.id) == bid_entry(pre.bids_of(g), hh.id));
                } else {
                    assert(post.bids_of(g2) == pre.bids_of(g2));
                }
            }
        }
    }
    assert forall|g2: u64, j: int| 0 <= j < post.bids_of(g2).len() implies post.winning_backed(
        g2,
        #[trigger] post.bids_of(g2)[j],
    ) by {
        if g2 == g && j == m {
            assert(post.bids_of(g2)[j] == nb);
            assert(post.huddles_of(host)[n] == h);
            assert(0 <= n < post.huddles_of(host).len() && (#[trigger] post.huddles_of(host)[n]).id
                == nb.huddle && post.huddles_of(host)[n].guest == Some(g) && post.huddles_of(
                host,
            )[n].value == nb.value && !(post.huddles_of(host)[n].status is Concluded));
        } else {
            assert(post.bids_of(g2)[j] == pre.bids_of(g2)[j]);
            let b = pre.bids_of(g2)[j];
            assert(pre.winning_backed(g2, b));
            if b.status is Winning {
                let (hw, iw): (u64, int) = choose|hw: u64, iw: int|
                    0 <= iw < pre.huddles_of(hw).len() && (#[trigger] pre.huddles_of(hw)[iw]).id
                        == b.huddle && pre.huddles_of(hw)[iw].guest == Some(g2) && pre.huddles_of(
                        hw,
                    )[iw].value == b.value && !(pre.huddles_of(hw)[iw].status is Concluded);
                assert(post.huddles_of(hw)[iw] == pre.huddles_of(hw)[iw]);
                assert(0 <= iw < post.huddles_of(hw).len() && (#[trigger] post.huddles_of(
                    hw,
                )[iw]).id == b.huddle && post.huddles_of(hw)[iw].guest == Some(g2)
                    && post.huddles_of(hw)[iw].value == b.value && !(post.huddles_of(
                    hw,
                )[iw].status is Concluded));
            }
        }
    }
    assert forall|g2: u64| (#[trigger] post.reserved_of(g2)) as int == winning_total(
        post.bids_of(g2),
    ) by {
        if g2 == g {
            assert(winning_total(post.bids_of(g)) == winning_total(pre.bids_of(g)) + bid_contrib(
                nb,
            ));
            assert(pre.reserved_of(g) as int == winning_total(pre.bids_of(g)));
        } else {
            assert(post.bids_of(g2) == pre.bids_of(g2));
            assert(pre.reserved_of(g2) as int == winning_total(pre.bids_of(g2)));
        }
    }
}

/// Well-formedness carries over to an engine that replaced one stored
/// huddle by a version with the same identifier, guest, value and
/// concluded-ness (say, a new schedule or a new rating), touching
/// nothing else.
#[verifier::rlimit(100)]
proof fn lemma_wf_after_huddle_tweak(pre: Engine, post: Engine, host: u64, i: int, h2: Huddle)
    requires
        pre.wf(),
        0 <= i < pre.huddles_of(host).len(),
        h2.id == pre.huddles_of(host)[i].id,
        h2.guest == pre.huddles_of(host)[i].guest,
        h2.value == pre.huddles_of(host)[i].value,
        (h2.status is Concluded) == (pre.huddles_of(host)[i].status is Concluded),
        h2.stars <= 5,
        post.config == pre.config,
        post.ids == pre.ids,
        post.registry.wf(),
        post.ledger.wf(),
        post.escrow.wf(),
        post.registry.max_per_host == pre.registry.max_per_host,
        post.ledger.max_per_guest == pre.ledger.max_per_guest,
        post.huddles_of(host) == pre.huddles_of(host).update(i, h2),
        forall|x: u64| x != host ==> (#[trigger] post.huddles_of(x)) == pre.huddles_of(x),
        same_bids(pre, post),
        forall|x: u64| (#[trigger] post.reserved_of(x)) == pre.reserved_of(x),
    ensures
        post.wf(),
{
    let h1 = pre.huddles_of(host)[i];
    assert forall|hx: u64, ix: int| 0 <= ix < post.huddles_of(hx).len() implies post.huddle_ok(
        #[trigger] post.huddles_of(hx)[ix],
    ) by {
        if hx == host && ix == i {
            assert(post.huddles_of(hx)[ix] == h2);
            assert(pre.huddle_ok(h1));
        } else {
            assert(post.huddles_of(hx)[ix] == pre.huddles_of(hx)[ix]);
            assert(pre.huddle_ok(pre.huddles_of(hx)[ix]));
        }
    }
    assert forall|g: u64, j: int| 0 <= j < post.bids_of(g).len() implies 1 <= (
    #[trigger] post.bids_of(g)[j]).huddle <= post.counter() by {
        assert(post.bids_of(g) == pre.bids_of(g));
        assert(1 <= pre.bids_of(g)[j].huddle <= pre.counter());
    }
    assert forall|ha: u64, ia: int, hb: u64, ib: int|
        0 <= ia < post.huddles_of(ha).len() && 0 <= ib < post.huddles_of(hb).len() && (ha != hb
            || ia != ib) implies (#[trigger] post.huddles_of(ha)[ia]).id != (
    #[trigger] post.huddles_of(hb)[ib]).id by {
        assert(post.huddles_of(ha)[ia].id == pre.huddles_of(ha)[ia].id);
        assert(post.huddles_of(hb)[ib].id == pre.huddles_of(hb)[ib].id);
        assert(pre.huddles_of(ha)[ia].id != pre.huddles_of(hb)[ib].id);
    }
    assert forall|hx: u64, ix: int| 0 <= ix < post.huddles_of(hx).len() implies post.guest_linked(
        hx,
        #[trigger] post.huddles_of(hx)[ix],
    ) by {
        let hh = if hx == host && ix == i {
            h2
        } else {
            pre.huddles_of(hx)[ix]
        };
        assert(post.huddles_of(hx)[ix] == hh);
        assert(pre.guest_linked(hx, pre.huddles_of(hx)[ix]));
        if let Some(g) = hh.guest {
            assert(post.bids_of(g) == pre.bids_of(g));
        }
    }
    assert forall|g: u64, j: int| 0 <= j < post.bids_of(g).len() implies post.winning_backed(
        g,
        #[trigger] post.bids_of(g)[j],
    ) by {
        assert(post.bids_of(g) == pre.bids_of(g));
        let b = pre.bids_of(g)[j];
        assert(pre.winning_backed(g, b));
        if b.status is Winning {
            let (hw, iw): (u64, int) = choose|hw: u64, iw: int|
                0 <= iw < pre.huddles_of(hw).len() && (#[trigger] pre.huddles_of(hw)[iw]).id
                    == b.huddle && pre.huddles_of(hw)[iw].guest == Some(g) && pre.huddles_of(
                    hw,
                )[iw].value == b.value && !(pre.huddles_of(hw)[iw].status is Concluded);
            let hh = if hw == host && iw == i {
                h2
            } else {
                pre.huddles_of(hw)[iw]
            };
            assert(post.huddles_of(hw)[iw] == hh);
            assert(0 <= iw < post.huddles_of(hw).len() && (#[trigger] post.huddles_of(hw)[iw]).id
                == b.huddle && post.huddles_of(hw)[iw].guest == Some(g) && post.huddles_of(
                hw,
            )[iw].value == b.value && !(post.huddles_of(hw)[iw].status is Concluded));
        }
    }
    assert forall|g: u64| (#[trigger] post.reserved_of(g)) as int == winning_total(
        post.bids_of(g),
    ) by {
        assert(post.bids_of(g) == pre.bids_of(g));
        assert(pre.reserved_of(g) as int == winning_total(pre.bids_of(g)));
    }
}

/// Well-formedness carries over to an engine that concluded one
/// running huddle: the huddle's status became concluded, and, where it
/// had a guest, that guest's winning bid became the winner bid and its
/// value moved from the guest's reserved funds to the host's free
/// funds.
#[verifier::rlimit(100)]
proof fn lemma_wf_after_claim(pre: Engine, post: Engine, host: u64, i: int)
    requires
        pre.wf(),
        0 <= i < pre.huddles_of(host).len(),
        !(pre.huddles_of(host)[i].status is Concluded),
        post.config == pre.config,
        post.ids == pre.ids,
        post.registry.wf(),
        post.ledger.wf(),
        post.escrow.wf(),
        post.registry.max_per_host == pre.registry.max_per_host,
        post.ledger.max_per_guest == pre.ledger.max_per_guest,
        post.huddles_of(host) == pre.huddles_of(host).update(
            i,
            Huddle {
                id: pre.huddles_of(host)[i].id,
                timestamp: pre.huddles_of(host)[i].timestamp,
                guest: pre.huddles_of(host)[i].guest,
                value: pre.huddles_of(host)[i].value,
                status: HuddleStatus::Concluded,
                stars: pre.huddles_of(host)[i].stars,
            },
        ),
        forall|x: u64| x != host ==> (#[trigger] post.huddles_of(x)) == pre.huddles_of(x),
        pre.huddles_of(host)[i].guest is None ==> same_bids(pre, post) && (forall|x: u64|
            (#[trigger] post.reserved_of(x)) == pre.reserved_of(x)),
        pre.huddles_of(host)[i].guest matches Some(g) ==> {
            &&& post.bids_of(g) == pre.bids_of(g).update(
                bid_idx(pre.bids_of(g), pre.huddles_of(host)[i].id),
                Bid {
                    huddle: pre.huddles_of(host)[i].id,
                    value: pre.huddles_of(host)[i].value,
                    status: BidStatus::Winner,
                },
            )
            &&& forall|x: u64| x != g ==> (#[trigger] post.bids_of(x)) == pre.bids_of(x)
            &&& post.reserved_of(g) as int == pre.reserved_of(g) - pre.huddles_of(host)[i].value
            &&& forall|x: u64| x != g ==> (#[trigger] post.reserved_of(x)) == pre.reserved_of(x)
        },
    ensures
        post.wf(),
{
    let h1 = pre.huddles_of(host)[i];
    let h2 = Huddle {
        id: h1.id,
        timestamp: h1.timestamp,
        guest: h1.guest,
        value: h1.value,
        status: HuddleStatus::Concluded,
        stars: h1.stars,
    };
    assert(pre.guest_linked(host, h1));
    if let Some(g) = h1.guest {
        let wb = Bid { huddle: h1.id, value: h1.value, status: BidStatus::Winner };
        let j0 = bid_idx(pre.bids_of(g), h1.id);
        assert(bid_entry(pre.bids_of(g), h1.id) == Some(
            Bid { huddle: h1.id, value: h1.value, status: BidStatus::Winning },
        ));
        assert(has_bid(pre.bids_of(g), h1.id));
        assert(0 <= j0 < pre.bids_of(g).len() && pre.bids_of(g)[j0].huddle == h1.id);
        lemma_entries_after_update(pre.bids_of(g), j0, wb);
        lemma_winning_total_update(pre.bids_of(g), j0, wb);
        assert forall|hx: u64, ix: int|
            0 <= ix < post.huddles_of(hx).len() implies post.huddle_ok(
            #[trigger] post.huddles_of(hx)[ix],
        ) by {
            if hx == host && ix == i {
                assert(post.huddles_of(hx)[ix] == h2);
                assert(pre.huddle_ok(h1));
            } else {
                assert(post.huddles_of(hx)[ix] == pre.huddles_of(hx)[ix]);
                assert(pre.huddle_ok(pre.huddles_of(hx)[ix]));
            }
        }
        assert forall|g2: u64, j: int| 0 <= j < post.bids_of(g2).len() implies 1 <= (
        #[trigger] post.bids_of(g2)[j]).huddle <= post.counter() by {
            if g2 == g && j == j0 {
                assert(post.bids_of(g2)[j] == wb);
                assert(1 <= pre.bids_of(g)[j0].huddle <= pre.counter());
            } else {
                assert(post.bids_of(g2)[j] == pre.bids_of(g2)[j]);
                assert(1 <= pre.bids_of(g2)[j].huddle <= pre.counter());
            }
        }
        assert forall|ha: u64, ia: int, hb: u64, ib: int|
            0 <= ia < post.huddles_of(ha).len() && 0 <= ib < post.huddles_of(hb).len() && (ha != hb
                || ia != ib) implies (#[trigger] post.huddles_of(ha)[ia]).id != (
        #[trigger] post.huddles_of(hb)[ib]).id by {
            assert(post.huddles_of(ha)[ia].id == pre.huddles_of(ha)[ia].id);
            assert(post.huddles_of(hb)[ib].id == pre.huddles_of(hb)[ib].id);
            assert(pre.huddles_of(ha)[ia].id != pre.huddles_of(hb)[ib].id);
        }
        assert forall|hx: u64, ix: int|
            0 <= ix < post.huddles_of(hx).len() implies post.guest_linked(
            hx,
            #[trigger] post.huddles_of(hx)[ix],
        ) by {
            if hx == host && ix == i {
                assert(post.huddles_of(hx)[ix] == h2);
                assert(bid_entry(post.bids_of(g), h1.id) == Some(wb));
            } else {
                assert(post.huddles_of(hx)[ix] == pre.huddles_of(hx)[ix]);
                let hh = pre.huddles_of(hx)[ix];
                assert(pre.guest_linked(hx, hh));
                if let Some(g2) = hh.guest {
                    if g2 == g {
                        assert(hh.id != h1.id);
                        assert(bid_entry(post.bids_of(g), hh.id) == bid_entry(
                            pre.bids_of(g),
                            hh.id,
                        ));
                    } else {
                        assert(post.bids_of(g2) == pre.bids_of(g2));
                    }
                }
            }
        }
        assert forall|g2: u64, j: int| 0 <= j < post.bids_of(g2).len() implies post.winning_backed(
            g2,
            #[trigger] post.bids_of(g2)[j],
        ) by {
            let b = post.bids_of(g2)[j];
            if b.status is Winning {
                assert(!(g2 == g && j == j0));
                assert(b == pre.bids_of(g2)[j]);
                assert(pre.winning_backed(g2, b));
                let (hw, iw): (u64, int) = choose|hw: u64, iw: int|
                    0 <= iw < pre.huddles_of(hw).len() && (#[trigger] pre.huddles_of(hw)[iw]).id
                        == b.huddle && pre.huddles_of(hw)[iw].guest == Some(g2) && pre.huddles_of(
                        hw,
                    )[iw].value == b.value && !(pre.huddles_of(hw)[iw].status is Concluded);
                if hw == host && iw == i {
                    assert(h1.guest == Some(g2));
                    assert(g2 == g);
                    assert(b.huddle == h1.id);
                    lemma_sorted_bid_unique(pre.bids_of(g), j, j0);
                    assert(false);
                }
                assert(post.huddles_of(hw)[iw] == pre.huddles_of(hw)[iw]);
                assert(0 <= iw < post.huddles_of(hw).len() && (#[trigger] post.huddles_of(
                    hw,
                )[iw]).id == b.huddle && post.huddles_of(hw)[iw].guest == Some(g2)
                    && post.huddles_of(hw)[iw].value == b.value && !(post.huddles_of(
                    hw,
                )[iw].status is Concluded));
            }
        }
        assert forall|g2: u64| (#[trigger] post.reserved_of(g2)) as int == winning_total(
            post.bids_of(g2),
        ) by {
            if g2 == g {
                assert(winning_total(post.bids_of(g)) == winning_total(pre.bids_of(g))
                    - bid_contrib(pre.bids_of(g)[j0]) + bid_contrib(wb));
                assert(pre.reserved_of(g) as int == winning_total(pre.bids_of(g)));
            } else {
                assert(post.bids_of(g2) == pre.bids_of(g2));
                assert(pre.reserved_of(g2) as int == winning_total(pre.bids_of(g2)));
            }
        }
    } else {
        lemma_wf_after_huddle_tweak_concluded_no_guest(pre, post, host, i, h2);
    }
}

/// Well-formedness carries over to an engine that concluded one
/// guestless huddle, touching nothing else.
#[verifier::rlimit(100)]
proof fn lemma_wf_after_huddle_tweak_concluded_no_guest(
    pre: Engine,
    post: Engine,
    host: u64,
    i: int,
    h2: Huddle,
)
    requires
        pre.wf(),
        0 <= i < pre.huddles_of(host).len(),
        pre.huddles_of(host)[i].guest is None,
        h2.id == pre.huddles_of(host)[i].id,
        h2.guest == pre.huddles_of(host)[i].guest,
        h2.value == pre.huddles_of(host)[i].value,
        h2.stars == pre.huddles_of(host)[i].stars,
        post.config == pre.config,
        post.ids == pre.ids,
        post.registry.wf(),
        post.ledger.wf(),
        post.escrow.wf(),
        post.registry.max_per_host == pre.registry.max_per_host,
        post.ledger.max_per_guest == pre.ledger.max_per_guest,
        post.huddles_of(host) == pre.huddles_of(host).update(i, h2),
        forall|x: u64| x != host ==> (#[trigger] post.huddles_of(x)) == pre.huddles_of(x),
        same_bids(pre, post),
        forall|x: u64| (#[trigger] post.reserved_of(x)) == pre.reserved_of(x),
    ensures
        post.wf(),
{
    let h1 = pre.huddles_of(host)[i];
    assert forall|hx: u64, ix: int| 0 <= ix < post.huddles_of(hx).len() implies post.huddle_ok(
        #[trigger] post.huddles_of(hx)[ix],
    ) by {
        if hx == host && ix == i {
            assert(post.huddles_of(hx)[ix] == h2);
            assert(pre.huddle_ok(h1));
        } else {
            assert(post.huddles_of(hx)[ix] == pre.huddles_of(hx)[ix]);
            assert(pre.huddle_ok(pre.huddles_of(hx)[ix]));
        }
    }
    assert forall|g: u64, j: int| 0 <= j < post.bids_of(g).len() implies 1 <= (
    #[trigger] post.bids_of(g)[j]).huddle <= post.counter() by {
        assert(post.bids_of(g) == pre.bids_of(g));
        assert(1 <= pre.bids_of(g)[j].huddle <= pre.counter());
    }
    assert forall|ha: u64, ia: int, hb: u64, ib: int|
        0 <= ia < post.huddles_of(ha).len() && 0 <= ib < post.huddles_of(hb).len() && (ha != hb
            || ia != ib) implies (#[trigger] post.huddles_of(ha)[ia]).id != (
    #[trigger] post.huddles_of(hb)[ib]).id by {
        assert(post.huddles_of(ha)[ia].id == pre.huddles_of(ha)[ia].id);
        assert(post.huddles_of(hb)[ib].id == pre.huddles_of(hb)[ib].id);
        assert(pre.huddles_of(ha)[ia].id != pre.huddles_of(hb)[ib].id);
    }
    assert forall|hx: u64, ix: int| 0 <= ix < post.huddles_of(hx).len() implies post.guest_linked(
        hx,
        #[trigger] post.huddles_of(hx)[ix],
    ) by {
        let hh = if hx == host && ix == i {
            h2
        } else {
            pre.huddles_of(hx)[ix]
        };
        assert(post.huddles_of(hx)[ix] == hh);
        assert(pre.guest_linked(hx, pre.huddles_of(hx)[ix]));
        if let Some(g) = hh.guest {
            assert(post.bids_of(g) == pre.bids_of(g));
        }
    }
    assert forall|g: u64, j: int| 0 <= j < post.bids_of(g).len() implies post.winning_backed(
        g,
        #[trigger] post.bids_of(g)[j],
    ) by {
        assert(post.bids_of(g) == pre.bids_of(g));
        let b = pre.bids_of(g)[j];
        assert(pre.winning_backed(g, b));
        if b.status is Winning {
            let (hw, iw): (u64, int) = choose|hw: u64, iw: int|
                0 <= iw < pre.huddles_of(hw).len() && (#[trigger] pre.huddles_of(hw)[iw]).id
                    == b.huddle && pre.huddles_of(hw)[iw].guest == Some(g) && pre.huddles_of(
                    hw,
                )[iw].value == b.value && !(pre.huddles_of(hw)[iw].status is Concluded);
            assert(!(hw == host && iw == i));
            assert(post.huddles_of(hw)[iw] == pre.huddles_of(hw)[iw]);
            assert(0 <= iw < post.huddles_of(hw).len() && (#[trigger] post.huddles_of(hw)[iw]).id
                == b.huddle && post.huddles_of(hw)[iw].guest == Some(g) && post.huddles_of(
                hw,
            )[iw].value == b.value && !(post.huddles_of(hw)[iw].status is Concluded));
        }
    }
    assert forall|g: u64| (#[trigger] post.reserved_of(g)) as int == winning_total(
        post.bids_of(g),
    ) by {
        assert(post.bids_of(g) == pre.bids_of(g));
        assert(pre.reserved_of(g) as int == winning_total(pre.bids_of(g)));
    }
}

/// How a successful bid changes the engine: the huddle at position `i`
/// under `host` now carries `guest` as its winning guest over `value`;
/// a previously winning other guest's bid was surpassed and released;
/// the caller's bid was updated in place or inserted at position `pg`;
/// and the moved reservations are reflected in the escrow.
pub open spec fn bid_step_core(
    pre: Engine,
    post: Engine,
    host: u64,
    i: int,
    guest: u64,
    value: u64,
    pg: int,
    h2: Huddle,
) -> bool {
    let h1 = pre.huddles_of(host)[i];
    let hid = h1.id;
    let nb = Bid { huddle: hid, value, status: BidStatus::Winning };
    &&& 0 <= i < pre.huddles_of(host).len()
    &&& !(h1.status is Concluded)
    &&& guest != host
    &&& h2.id == hid
    &&& h2.guest == Some(guest)
    &&& h2.value == value
    &&& !(h2.status is Concluded)
    &&& h2.stars == h1.stars
    &&& post.config == pre.config
    &&& post.ids == pre.ids
    &&& post.registry.wf()
    &&& post.ledger.wf()
    &&& post.escrow.wf()
    &&& post.registry.max_per_host == pre.registry.max_per_host
    &&& post.ledger.max_per_guest == pre.ledger.max_per_guest
    &&& post.huddles_of(host) == pre.huddles_of(host).update(i, h2)
    &&& forall|x: u64| x != host ==> (#[trigger] post.huddles_of(x)) == pre.huddles_of(x)
    &&& match h1.guest {
        Some(g0) => if g0 == guest {
            &&& forall|x: u64| x != guest ==> (#[trigger] post.bids_of(x)) == pre.bids_of(x)
            &&& forall|x: u64|
                x != guest ==> (#[trigger] post.reserved_of(x)) == pre.reserved_of(x)
        } else {
            &&& has_bid(pre.bids_of(g0), hid)
            &&& post.bids_of(g0) == pre.bids_of(g0).update(
                bid_idx(pre.bids_of(g0), hid),
                Bid { huddle: hid, value: h1.value, status: BidStatus::Surpassed },
            )
            &&& post.reserved_of(g0) as int == pre.reserved_of(g0) - h1.value
            &&& forall|x: u64|
                x != guest && x != g0 ==> (#[trigger] post.bids_of(x)) == pre.bids_of(x)
            &&& forall|x: u64|
                x != guest && x != g0 ==> (#[trigger] post.reserved_of(x)) == pre.reserved_of(x)
        },
        None => {
            &&& forall|x: u64| x != guest ==> (#[trigger] post.bids_of(x)) == pre.bids_of(x)
            &&& forall|x: u64|
                x != guest ==> (#[trigger] post.reserved_of(x)) == pre.reserved_of(x)
        },
    }
    &&& if has_bid(pre.bids_of(guest), hid) {
        post.bids_of(guest) == pre.bids_of(guest).update(bid_idx(pre.bids_of(guest), hid), nb)
    } else {
        &&& 0 <= pg <= pre.bids_of(guest).len()
        &&& forall|j: int| 0 <= j < pg ==> pre.bids_of(guest)[j].huddle < hid
        &&& forall|j: int|
            pg <= j < pre.bids_of(guest).len() ==> pre.bids_of(guest)[j].huddle > hid
        &&& post.bids_of(guest) == pre.bids_of(guest).insert(pg, nb)
    }
    &&& post.reserved_of(guest) as int == pre.reserved_of(guest) + value - (if h1.guest == Some(
        guest,
    ) {
        h1.value as int
    } else {
        0
    })
}

/// The bookkeeping side of a successful bid, beyond `bid_step_core`:
/// key presence, profiles and the accounts' funds.
pub open spec fn bid_step_frames(
    pre: Engine,
    post: Engine,
    host: u64,
    i: int,
    guest: u64,
    value: u64,
) -> bool {
    let h1 = pre.huddles_of(host)[i];
    &&& forall|x: u64| (#[trigger] post.registry.stored(x)) == pre.registry.stored(x)
    &&& post.ledger.stored(guest)
    &&& forall|x: u64| x != guest ==> (#[trigger] post.ledger.stored(x)) == pre.ledger.stored(x)
    &&& same_profiles(pre, post)
    &&& post.free_of(guest) as int == pre.free_of(guest) + (if h1.guest == Some(guest) {
        h1.value as int
    } else {
        0
    }) - value
    &&& match h1.guest {
        Some(g0) => if g0 == guest {
            forall|x: u64| x != guest ==> (#[trigger] post.funds_of(x)) == pre.funds_of(x)
        } else {
            &&& post.funds_of(g0) == (Funds {
                free: (pre.free_of(g0) + h1.value) as u64,
                reserved: (pre.reserved_of(g0) - h1.value) as u64,
            })
            &&& forall|x: u64|
                x != guest && x != g0 ==> (#[trigger] post.funds_of(x)) == pre.funds_of(x)
        },
        None => forall|x: u64| x != guest ==> (#[trigger] post.funds_of(x)) == pre.funds_of(x),
    }
}

/// How a successful bid changes the engine, in full.
pub open spec fn bid_step(
    pre: Engine,
    post: Engine,
    host: u64,
    i: int,
    guest: u64,
    value: u64,
    pg: int,
    h2: Huddle,
) -> bool {
    &&& bid_step_core(pre, post, host, i, guest, value, pg, h2)
    &&& bid_step_frames(pre, post, host, i, guest, value)
}

/// After a bid step, the caller's recorded bid is the new winning bid
/// and every other huddle's entry in the caller's collection is
/// untouched.
proof fn lemma_bid_guest_entries(
    pre: Engine,
    post: Engine,
    host: u64,
    i: int,
    guest: u64,
    value: u64,
    pg: int,
    h2: Huddle,
)
    requires
        pre.wf(),
        bid_step_core(pre, post, host, i, guest, value, pg, h2),
    ensures
        bid_entry(post.bids_of(guest), pre.huddles_of(host)[i].id) == Some(
            Bid { huddle: pre.huddles_of(host)[i].id, value, status: BidStatus::Winning },
        ),
        forall|x: u64|
            x != pre.huddles_of(host)[i].id ==> bid_entry(post.bids_of(guest), x) == bid_entry(
                pre.bids_of(guest),
                x,
            ),
        post.bids_of(guest).len() == pre.bids_of(guest).len() + (if has_bid(
            pre.bids_of(guest),
            pre.huddles_of(host)[i].id,
        ) {
            0int
        } else {
            1int
        }),
{
    let h1 = pre.huddles_of(host)[i];
    let hid = h1.id;
    let nb = Bid { huddle: hid, value, status: BidStatus::Winning };
    let s = pre.bids_of(guest);
    if has_bid(s, hid) {
        let jg = bid_idx(s, hid);
        assert(0 <= jg < s.len() && s[jg].huddle == hid);
        lemma_entries_after_update(s, jg, nb);
    } else {
        lemma_entries_after_insert(s, pg, nb);
    }
}

/// After a bid step, every huddle's guest link is sound again.
#[verifier::rlimit(100)]
proof fn lemma_bid_guests_linked(
    pre: Engine,
    post: Engine,
    host: u64,
    i: int,
    guest: u64,
    value: u64,
    pg: int,
    h2: Huddle,
)
    requires
        pre.wf(),
        bid_step_core(pre, post, host, i, guest, value, pg, h2),
    ensures
        post.guests_linked(),
{
    let h1 = pre.huddles_of(host)[i];
    let hid = h1.id;
    let nb = Bid { huddle: hid, value, status: BidStatus::Winning };
    lemma_bid_guest_entries(pre, post, host, i, guest, value, pg, h2);
    if let Some(g0) = h1.guest {
        if g0 != guest {
            let j0 = bid_idx(pre.bids_of(g0), hid);
            assert(0 <= j0 < pre.bids_of(g0).len() && pre.bids_of(g0)[j0].huddle == hid);
            lemma_entries_after_update(
                pre.bids_of(g0),
                j0,
                Bid { huddle: hid, value: h1.value, status: BidStatus::Surpassed },
            );
        }
    }
    assert forall|hx: u64, ix: int| 0 <= ix < post.huddles_of(hx).len() implies post.guest_linked(
        hx,
        #[trigger] post.huddles_of(hx)[ix],
    ) by {
        if hx == host && ix == i {
            assert(post.huddles_of(hx)[ix] == h2);
            assert(bid_entry(post.bids_of(guest), hid) == Some(nb));
        } else {
            assert(post.huddles_of(hx)[ix] == pre.huddles_of(hx)[ix]);
            let hh = pre.huddles_of(hx)[ix];
            assert(pre.guest_linked(hx, hh));
            if let Some(g2) = hh.guest {
                assert(hh.id != hid);
                if g2 == guest {
                    assert(bid_entry(post.bids_of(guest), hh.id) == bid_entry(
                        pre.bids_of(guest),
                        hh.id,
                    ));
                } else if h1.guest == Some(g2) {
                    assert(bid_entry(post.bids_of(g2), hh.id) == bid_entry(
                        pre.bids_of(g2),
                        hh.id,
                    ));
                } else {
                    assert(post.bids_of(g2) == pre.bids_of(g2));
                }
            }
        }
    }
}

/// After a bid step, every winning bid is backed again.
proof fn lemma_bid_backed(
    pre: Engine,
    post: Engine,
    host: u64,
    i: int,
    guest: u64,
    value: u64,
    pg: int,
    h2: Huddle,
)
    requires
        pre.wf(),
        bid_step_core(pre, post, host, i, guest, value, pg, h2),
    ensures
        post.bids_backed(),
{
    assert forall|g2: u64, j: int| 0 <= j < post.bids_of(g2).len() implies post.winning_backed(
        g2,
        #[trigger] post.bids_of(g2)[j],
    ) by {
        lemma_bid_backed_one(pre, post, host, i, guest, value, pg, h2, g2, j);
    }
}

/// After a bid step, one given stored bid is backed again.
#[verifier::rlimit(100)]
proof fn lemma_bid_backed_one(
    pre: Engine,
    post: Engine,
    host: u64,
    i: int,
    guest: u64,
    value: u64,
    pg: int,
    h2: Huddle,
    g2: u64,
    j: int,
)
    requires
        pre.wf(),
        bid_step_core(pre, post, host, i, guest, value, pg, h2),
        0 <= j < post.bids_of(g2).len(),
    ensures
        post.winning_backed(g2, post.bids_of(g2)[j]),
{
    let h1 = pre.huddles_of(host)[i];
    let hid = h1.id;
    let nb = Bid { huddle: hid, value, status: BidStatus::Winning };
    let s = pre.bids_of(guest);
    if has_bid(s, hid) {
        let jg = bid_idx(s, hid);
        assert(0 <= jg < s.len() && s[jg].huddle == hid);
    } else {
        s.insert_ensures(pg, nb);
    }
    {
        let b = post.bids_of(g2)[j];
        if b.status is Winning {
            // Either this is the caller's fresh winning bid, backed by
            // the updated huddle, or it is an untouched bid whose old
            // witness still stands.
            let is_new_bid = if g2 == guest {
                if has_bid(s, hid) {
                    j == bid_idx(s, hid)
                } else {
                    j == pg
                }
            } else {
                false
            };
            if is_new_bid {
                assert(post.bids_of(guest)[j] == nb);
                assert(post.huddles_of(host)[i] == h2);
                assert(0 <= i < post.huddles_of(host).len() && (#[trigger] post.huddles_of(
                    host,
                )[i]).id == nb.huddle && post.huddles_of(host)[i].guest == Some(guest)
                    && post.huddles_of(host)[i].value == nb.value && !(post.huddles_of(
                    host,
                )[i].status is Concluded));
            } else {
                // An untouched bid: recover it in the old ledger.
                let jp: int = if g2 == guest && !has_bid(s, hid) && j > pg {
                    j - 1
                } else {
                    j
                };
                assert(b == pre.bids_of(g2)[jp]);
                assert(pre.winning_backed(g2, b));
                let (hw, iw): (u64, int) = choose|hw: u64, iw: int|
                    0 <= iw < pre.huddles_of(hw).len() && (#[trigger] pre.huddles_of(hw)[iw]).id
                        == b.huddle && pre.huddles_of(hw)[iw].guest == Some(g2) && pre.huddles_of(
                        hw,
                    )[iw].value == b.value && !(pre.huddles_of(hw)[iw].status is Concluded);
                if hw == host && iw == i {
                    // The old witness is the re-bid huddle itself: then
                    // its old guest held this very bid, which the step
                    // replaced, contradicting that it is untouched.
                    assert(h1.guest == Some(g2));
                    assert(b.huddle == hid);
                    if g2 == guest {
                        assert(has_bid(s, hid));
                        lemma_sorted_bid_unique(s, jp, bid_idx(s, hid));
                        assert(false);
                    } else {
                        let j0 = bid_idx(pre.bids_of(g2), hid);
                        lemma_sorted_bid_unique(pre.bids_of(g2), jp, j0);
                        assert(jp == j0);
                        assert(post.bids_of(g2)[j0].status is Surpassed);
                        assert(false);
                    }
                }
                assert(post.huddles_of(hw)[iw] == pre.huddles_of(hw)[iw]);
                assert(0 <= iw < post.huddles_of(hw).len() && (#[trigger] post.huddles_of(
                    hw,
                )[iw]).id == b.huddle && post.huddles_of(hw)[iw].guest == Some(g2)
                    && post.huddles_of(hw)[iw].value == b.value && !(post.huddles_of(
                    hw,
                )[iw].status is Concluded));
            }
        }
    }
}

/// After a bid step, escrow conservation holds again.
#[verifier::rlimit(100)]
proof fn lemma_bid_conserved(
    pre: Engine,
    post: Engine,
    host: u64,
    i: int,
    guest: u64,
    value: u64,
    pg: int,
    h2: Huddle,
)
    requires
        pre.wf(),
        bid_step_core(pre, post, host, i, guest, value, pg, h2),
    ensures
        post.conserved(),
{
    let h1 = pre.huddles_of(host)[i];
    let hid = h1.id;
    let nb = Bid { huddle: hid, value, status: BidStatus::Winning };
    let s = pre.bids_of(guest);
    // The caller's side: the sum over the caller's bids grows by the
    // new value, less the caller's own previous winning value if the
    // caller was the huddle's guest already.
    if has_bid(s, hid) {
        let jg = bid_idx(s, hid);
        assert(0 <= jg < s.len() && s[jg].huddle == hid);
        lemma_winning_total_update(s, jg, nb);
        if s[jg].status is Winning {
            // A winning bid on this huddle makes its owner the guest.
            assert(pre.winning_backed(guest, s[jg]));
            let (hw, iw): (u64, int) = choose|hw: u64, iw: int|
                0 <= iw < pre.huddles_of(hw).len() && (#[trigger] pre.huddles_of(hw)[iw]).id
                    == s[jg].huddle && pre.huddles_of(hw)[iw].guest == Some(guest)
                    && pre.huddles_of(hw)[iw].value == s[jg].value && !(pre.huddles_of(
                    hw,
                )[iw].status is Concluded);
            if !(hw == host && iw == i) {
                assert(pre.huddles_of(hw)[iw].id != pre.huddles_of(host)[i].id);
                assert(false);
            }
            assert(h1.guest == Some(guest));
            assert(s[jg].value == h1.value);
        } else {
            assert(bid_contrib(s[jg]) == 0);
            if h1.guest == Some(guest) {
                assert(pre.guest_linked(host, h1));
                assert(bid_entry(s, hid) == Some(
                    Bid { huddle: hid, value: h1.value, status: BidStatus::Winning },
                ));
                assert(false);
            }
        }
    } else {
        lemma_winning_total_insert(s, pg, nb);
        if h1.guest == Some(guest) {
            assert(pre.guest_linked(host, h1));
            assert(bid_entry(s, hid) == Some(
                Bid { huddle: hid, value: h1.value, status: BidStatus::Winning },
            ));
            assert(false);
        }
    }
    // The displaced guest's side: the surpassed bid leaves the sum.
    if let Some(g0) = h1.guest {
        if g0 != guest {
            let s0 = pre.bids_of(g0);
            let j0 = bid_idx(s0, hid);
            assert(pre.guest_linked(host, h1));
            assert(bid_entry(s0, hid) == Some(
                Bid { huddle: hid, value: h1.value, status: BidStatus::Winning },
            ));
            assert(0 <= j0 < s0.len() && s0[j0] == Bid {
                huddle: hid,
                value: h1.value,
                status: BidStatus::Winning,
            });
            lemma_winning_total_update(
                s0,
                j0,
                Bid { huddle: hid, value: h1.value, status: BidStatus::Surpassed },
            );
        }
    }
    assert forall|g2: u64| (#[trigger] post.reserved_of(g2)) as int == winning_total(
        post.bids_of(g2),
    ) by {
        assert(pre.reserved_of(g2) as int == winning_total(pre.bids_of(g2)));
        if g2 != guest && h1.guest != Some(g2) {
            assert(post.bids_of(g2) == pre.bids_of(g2));
        }
    }
}

/// After a bid step, the remaining invariant parts hold again: sound
/// huddles and bids, and unique identifiers.
#[verifier::rlimit(100)]
proof fn lemma_bid_rest(
    pre: Engine,
    post: Engine,
    host: u64,
    i: int,
    guest: u64,
    value: u64,
    pg: int,
    h2: Huddle,
)
    requires
        pre.wf(),
        bid_step_core(pre, post, host, i, guest, value, pg, h2),
    ensures
        post.huddles_ok(),
        post.bids_ok(),
        post.ids_unique(),
{
    let h1 = pre.huddles_of(host)[i];
    let hid = h1.id;
    let nb = Bid { huddle: hid, value, status: BidStatus::Winning };
    let s = pre.bids_of(guest);
    if !has_bid(s, hid) {
        s.insert_ensures(pg, nb);
    }
    assert forall|hx: u64, ix: int| 0 <= ix < post.huddles_of(hx).len() implies post.huddle_ok(
        #[trigger] post.huddles_of(hx)[ix],
    ) by {
        if hx == host && ix == i {
            assert(post.huddles_of(hx)[ix] == h2);
            assert(pre.huddle_ok(h1));
        } else {
            assert(post.huddles_of(hx)[ix] == pre.huddles_of(hx)[ix]);
            assert(pre.huddle_ok(pre.huddles_of(hx)[ix]));
        }
    }
    assert forall|g2: u64, j: int| 0 <= j < post.bids_of(g2).len() implies 1 <= (
    #[trigger] post.bids_of(g2)[j]).huddle <= post.counter() by {
        assert(pre.huddle_ok(h1));
        if g2 == guest {
            if has_bid(s, hid) {
                let jg = bid_idx(s, hid);
                if j != jg {
                    assert(post.bids_of(g2)[j] == s[j]);
                    assert(1 <= s[j].huddle <= pre.counter());
                }
            } else {
                if j < pg {
                    assert(post.bids_of(g2)[j] == s[j]);
                    assert(1 <= s[j].huddle <= pre.counter());
                } else if j > pg {
                    assert(post.bids_of(g2)[j] == s[j - 1]);
                    assert(1 <= s[j - 1].huddle <= pre.counter());
                }
            }
        } else if h1.guest == Some(g2) {
            let j0 = bid_idx(pre.bids_of(g2), hid);
            if j != j0 {
                assert(post.bids_of(g2)[j] == pre.bids_of(g2)[j]);
                assert(1 <= pre.bids_of(g2)[j].huddle <= pre.counter());
            }
        } else {
            assert(post.bids_of(g2) == pre.bids_of(g2));
            assert(1 <= pre.bids_of(g2)[j].huddle <= pre.counter());
        }
    }
    assert forall|ha: u64, ia: int, hb: u64, ib: int|
        0 <= ia < post.huddles_of(ha).len() && 0 <= ib < post.huddles_of(hb).len() && (ha != hb
            || ia != ib) implies (#[trigger] post.huddles_of(ha)[ia]).id != (
    #[trigger] post.huddles_of(hb)[ib]).id by {
        assert(post.huddles_of(ha)[ia].id == pre.huddles_of(ha)[ia].id);
        assert(post.huddles_of(hb)[ib].id == pre.huddles_of(hb)[ib].id);
        assert(pre.huddles_of(ha)[ia].id != pre.huddles_of(hb)[ib].id);
    }
}

/// Well-formedness carries over a bid step.
proof fn lemma_wf_after_bid(
    pre: Engine,
    post: Engine,
    host: u64,
    i: int,
    guest: u64,
    value: u64,
    pg: int,
    h2: Huddle,
)
    requires
        pre.wf(),
        bid_step_core(pre, post, host, i, guest, value, pg, h2),
    ensures
        post.wf(),
{
    lemma_bid_rest(pre, post, host, i, guest, value, pg, h2);
    lemma_bid_guests_linked(pre, post, host, i, guest, value, pg, h2);
    lemma_bid_backed(pre, post, host, i, guest, value, pg, h2);
    lemma_bid_conserved(pre, post, host, i, guest, value, pg, h2);
}

/// A bid step yields everything the `bid` contract promises of a
/// successful call.
#[verifier::rlimit(100)]
proof fn lemma_bid_finish(
    pre: Engine,
    post: Engine,
    host: u64,
    i: int,
    guest: u64,
    huddle: u64,
    value: u64,
    pg: int,
    h2: Huddle,
)
    requires
        pre.wf(),
        bid_step(pre, post, host, i, guest, value, pg, h2),
        pre.huddles_of(host)[i].id == huddle,
        i == huddle_idx(pre.huddles_of(host), huddle),
        h2.timestamp == pre.huddles_of(host)[i].timestamp,
        h2.status == (if pre.huddles_of(host)[i].status is Open {
            HuddleStatus::Open
        } else {
            HuddleStatus::InAuction
        }),
    ensures
        post.wf(),
        post.huddles_of(host) == pre.huddles_of(host).update(
            huddle_idx(pre.huddles_of(host), huddle),
            Huddle {
                id: huddle,
                timestamp: pre.huddle_at(host, huddle).timestamp,
                guest: Some(guest),
                value,
                status: if pre.huddle_at(host, huddle).status is Open {
                    HuddleStatus::Open
                } else {
                    HuddleStatus::InAuction
                },
                stars: pre.huddle_at(host, huddle).stars,
            },
        ),
        bid_entry(post.bids_of(guest), huddle) == Some(
            Bid { huddle, value, status: BidStatus::Winning },
        ),
        forall|x: u64|
            x != huddle ==> bid_entry(post.bids_of(guest), x) == bid_entry(pre.bids_of(guest), x),
        post.bids_of(guest).len() == pre.bids_of(guest).len() + (if has_bid(
            pre.bids_of(guest),
            huddle,
        ) {
            0int
        } else {
            1int
        }),
        pre.displaced_guest(host, huddle, guest) matches Some(g0) ==> {
            &&& post.bids_of(g0) == pre.bids_of(g0).update(
                bid_idx(pre.bids_of(g0), huddle),
                Bid {
                    huddle,
                    value: pre.huddle_at(host, huddle).value,
                    status: BidStatus::Surpassed,
                },
            )
            &&& post.funds_of(g0) == (Funds {
                free: (pre.free_of(g0) + pre.huddle_at(host, huddle).value) as u64,
                reserved: (pre.reserved_of(g0) - pre.huddle_at(host, huddle).value) as u64,
            })
        },
        forall|x: u64|
            x != guest && pre.displaced_guest(host, huddle, guest) != Some(x) ==> (
            #[trigger] post.bids_of(x)) == pre.bids_of(x),
        forall|x: u64|
            x != guest && pre.displaced_guest(host, huddle, guest) != Some(x) ==> (
            #[trigger] post.funds_of(x)) == pre.funds_of(x),
        post.free_of(guest) as int == pre.free_of(guest) + pre.bid_release(host, huddle, guest)
            - value,
        post.reserved_of(guest) as int == pre.reserved_of(guest) - pre.bid_release(
            host,
            huddle,
            guest,
        ) + value,
{
    lemma_wf_after_bid(pre, post, host, i, guest, value, pg, h2);
    lemma_bid_guest_entries(pre, post, host, i, guest, value, pg, h2);
    assert(pre.huddle_at(host, huddle) == pre.huddles_of(host)[i]);
}

/// Well-formedness carries over to an engine whose huddle, bid and
/// escrow stores are unchanged.
#[verifier::rlimit(100)]
proof fn lemma_wf_frame(pre: Engine, post: Engine)
    requires
        pre.wf(),
        post.config == pre.config,
        post.ids == pre.ids,
        post.registry.max_per_host == pre.registry.max_per_host,
        post.ledger.max_per_guest == pre.ledger.max_per_guest,
        post.registry.wf(),
        post.ledger.wf(),
        post.escrow.wf(),
        same_huddles(pre, post),
        same_bids(pre, post),
        forall|x: u64| (#[trigger] post.reserved_of(x)) == pre.reserved_of(x),
    ensures
        post.wf(),
{
    assert forall|host: u64, i: int| 0 <= i < post.huddles_of(host).len() implies post.huddle_ok(
        #[trigger] post.huddles_of(host)[i],
    ) by {
        assert(post.huddles_of(host) == pre.huddles_of(host));
        assert(pre.huddle_ok(pre.huddles_of(host)[i]));
    }
    assert forall|g: u64, j: int| 0 <= j < post.bids_of(g).len() implies 1 <= (
    #[trigger] post.bids_of(g)[j]).huddle <= post.counter() by {
        assert(post.bids_of(g) == pre.bids_of(g));
        assert(1 <= pre.bids_of(g)[j].huddle <= pre.counter());
    }
    assert forall|h1: u64, i1: int, h2: u64, i2: int|
        0 <= i1 < post.huddles_of(h1).len() && 0 <= i2 < post.huddles_of(h2).len() && (h1 != h2
            || i1 != i2) implies (#[trigger] post.huddles_of(h1)[i1]).id != (
    #[trigger] post.huddles_of(h2)[i2]).id by {
        assert(post.huddles_of(h1) == pre.huddles_of(h1));
        assert(post.huddles_of(h2) == pre.huddles_of(h2));
        assert(pre.huddles_of(h1)[i1].id != pre.huddles_of(h2)[i2].id);
    }
    assert forall|host: u64, i: int| 0 <= i < post.huddles_of(host).len() implies post.guest_linked(
        host,
        #[trigger] post.huddles_of(host)[i],
    ) by {
        assert(post.huddles_of(host) == pre.huddles_of(host));
        let h = pre.huddles_of(host)[i];
        assert(pre.guest_linked(host, h));
        if let Some(g) = h.guest {
            assert(post.bids_of(g) == pre.bids_of(g));
        }
    }
    assert forall|g: u64, j: int| 0 <= j < post.bids_of(g).len() implies post.winning_backed(
        g,
        #[trigger] post.bids_of(g)[j],
    ) by {
        assert(post.bids_of(g) == pre.bids_of(g));
        let b = pre.bids_of(g)[j];
        assert(pre.winning_backed(g, b));
        if b.status is Winning {
            let (host, i): (u64, int) = choose|host: u64, i: int|
                0 <= i < pre.huddles_of(host).len() && (#[trigger] pre.huddles_of(host)[i]).id
                    == b.huddle && pre.huddles_of(host)[i].guest == Some(g) && pre.huddles_of(
                    host,
                )[i].value == b.value && !(pre.huddles_of(host)[i].status is Concluded);
            assert(post.huddles_of(host) == pre.huddles_of(host));
            assert(0 <= i < post.huddles_of(host).len() && (#[trigger] post.huddles_of(host)[i]).id
                == b.huddle && post.huddles_of(host)[i].guest == Some(g) && post.huddles_of(
                host,
            )[i].value == b.value && !(post.huddles_of(host)[i].status is Concluded));
        }
    }
    assert forall|g: u64| (#[trigger] post.reserved_of(g)) as int == winning_total(
        post.bids_of(g),
    ) by {
        assert(post.bids_of(g) == pre.bids_of(g));
        assert(pre.reserved_of(g) as int == winning_total(pre.bids_of(g)));
    }
}

} // verus!
