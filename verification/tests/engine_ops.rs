use huddle::engine::Engine;
use huddle::id_alloc::IdAllocator;
use huddle::types::BidStatus;
use huddle::types::Config;
use huddle::types::Error;
use huddle::types::Event;
use huddle::types::HuddleStatus;

fn ops_config() -> Config {
    Config {
        max_social_account: 8,
        max_social_proof: 16,
        max_huddles: 64,
        max_bids: 64,
        min_schedule_lead: 1,
        min_bid_increment: 1,
    }
}

/// A registered host (1) and two endowed guests (2, 3).
fn ops_setup() -> Engine {
    let mut e = Engine::new(ops_config());
    assert!(e.endow(1, 50));
    assert!(e.endow(2, 50));
    assert!(e.endow(3, 50));
    assert!(e.register(1, b"alice".to_vec(), b"proof".to_vec()).is_ok());
    e
}

#[test]
fn register_checks_lengths_and_overwrites() {
    let mut e = Engine::new(ops_config());
    assert_eq!(
        e.register(1, b"much too long".to_vec(), b"p".to_vec()),
        Err(Error::SocialAccountTooLong),
    );
    assert_eq!(e.hosts(1), None);
    assert_eq!(
        e.register(1, b"alice".to_vec(), b"a proof that is too long".to_vec()),
        Err(Error::SocialProofTooLong),
    );
    assert_eq!(e.hosts(1), None);
    assert_eq!(
        e.register(1, b"alice".to_vec(), b"p1".to_vec()),
        Ok(Event::HostRegistered(1, b"alice".to_vec(), b"p1".to_vec())),
    );
    // Registration is an upsert: a second call overwrites the profile.
    assert!(e.register(1, b"bob".to_vec(), b"p2".to_vec()).is_ok());
    let p = e.hosts(1).unwrap();
    assert_eq!(p.social_account, b"bob".to_vec());
    assert_eq!(p.social_proof, b"p2".to_vec());
}

#[test]
fn created_ids_are_sequential_and_failures_consume_none() {
    let mut e = ops_setup();
    assert_eq!(e.huddle_counter(), 0);
    assert!(e.create(1, 100, 2, 0).is_ok());
    assert_eq!(e.huddle_counter(), 1);
    assert!(e.create(1, 200, 3, 0).is_ok());
    assert_eq!(e.huddle_counter(), 2);
    // A rejected call consumes no identifier...
    assert_eq!(e.create(1, 0, 2, 50), Err(Error::InvalidTimestamp));
    assert_eq!(e.huddle_counter(), 2);
    // ...so the next success continues without a gap.
    assert!(e.create(1, 300, 4, 0).is_ok());
    assert_eq!(e.huddle_counter(), 3);
    let ids: Vec<u64> = e.huddles(1).unwrap().iter().map(|h| h.id).collect();
    assert_eq!(ids, vec![1, 2, 3]);
}

#[test]
fn id_space_exhaustion_is_an_error() {
    let ids = IdAllocator::new(u64::MAX);
    assert_eq!(ids.next_id(), Err(Error::OverflowHuddleId));
    let ids = IdAllocator::new(u64::MAX - 1);
    assert_eq!(ids.next_id(), Ok(u64::MAX));
    // Peeking does not advance the counter.
    assert_eq!(ids.next_id(), Ok(u64::MAX));
    assert_eq!(ids.current(), u64::MAX - 1);
}

#[test]
fn open_reserves_and_accept_schedules() {
    let mut e = ops_setup();
    // Guests can only open huddles towards registered hosts.
    assert_eq!(e.open(2, 3, 10), Err(Error::HostNotRegistered));
    assert_eq!(e.open(2, 1, 10), Ok(Event::HuddleOpen(2, 1, 10)));
    let h = e.huddles(1).unwrap()[0];
    assert_eq!(h.id, 1);
    assert_eq!(h.timestamp, 0);
    assert_eq!(h.guest, Some(2));
    assert_eq!(h.value, 10);
    assert_eq!(h.status, HuddleStatus::Open);
    assert_eq!(e.free_balance(2), 40);
    assert_eq!(e.reserved_balance(2), 10);
    // An open huddle takes bids even long after any moment, since it
    // has no schedule yet.
    assert!(e.bid(3, 1, 1, 12, 999_999).is_ok());
    let h = e.huddles(1).unwrap()[0];
    assert_eq!(h.status, HuddleStatus::Open);
    // A new opening towards the same host must not fall below the
    // host's most recently appended huddle's value.
    assert_eq!(e.open(2, 1, 11), Err(Error::BidIsTooLow));
    assert!(e.open(2, 1, 12).is_ok());
    // The host accepts the first huddle, which schedules it.
    assert_eq!(e.accept(1, 1, 0, 50), Err(Error::InvalidTimestamp));
    assert_eq!(e.accept(1, 1, 100, 0), Ok(Event::HuddleAccepted(1, 100, 12)));
    let h = e.huddles(1).unwrap()[0];
    assert_eq!(h.timestamp, 100);
    assert_eq!(h.status, HuddleStatus::InAuction);
    // Unknown identifiers.
    assert_eq!(e.accept(1, 0, 100, 0), Err(Error::InvalidHuddleId));
    assert_eq!(e.accept(1, 9, 100, 0), Err(Error::InvalidHuddleId));
    assert_eq!(e.accept(3, 2, 100, 0), Err(Error::HostInvalidHuddleId));
}

#[test]
fn hosts_cannot_deal_with_themselves() {
    let mut e = ops_setup();
    assert!(e.create(1, 100, 2, 0).is_ok());
    assert_eq!(e.open(1, 1, 10), Err(Error::HostsCannotOpenTheirHuddles));
    assert_eq!(e.bid(1, 1, 1, 10, 0), Err(Error::HostsCannotBidTheirHuddles));
    assert_eq!(e.rate(1, 1, 1, 5, 120), Err(Error::HostsCannotRateTheirHuddles));
    // The huddle never gained a guest from any of that.
    assert_eq!(e.huddles(1).unwrap()[0].guest, None);
}

#[test]
fn rebids_must_clear_the_margin() {
    let mut e = Engine::new(Config { min_bid_increment: 5, ..ops_config() });
    assert!(e.endow(1, 50));
    assert!(e.endow(2, 50));
    assert!(e.endow(3, 50));
    assert!(e.register(1, b"alice".to_vec(), b"proof".to_vec()).is_ok());
    assert!(e.create(1, 100, 10, 0).is_ok());
    // value must strictly exceed current value + margin.
    assert_eq!(e.bid(2, 1, 1, 15, 0), Err(Error::BidIsTooLow));
    let before = e.huddles(1);
    assert_eq!(e.bid(2, 1, 1, 14, 0), Err(Error::BidIsTooLow));
    // A rejected bid leaves everything unchanged.
    assert_eq!(e.huddles(1), before);
    assert_eq!(e.free_balance(2), 50);
    assert_eq!(e.bids(2), None);
    assert!(e.bid(2, 1, 1, 16, 0).is_ok());
    // Re-bidding over the new value of 16.
    assert_eq!(e.bid(3, 1, 1, 21, 0), Err(Error::BidIsTooLow));
    assert!(e.bid(3, 1, 1, 22, 0).is_ok());
    assert_eq!(e.huddles(1).unwrap()[0].value, 22);
}

#[test]
fn winning_bid_matches_guest_and_escrow() {
    let mut e = ops_setup();
    assert!(e.create(1, 100, 2, 0).is_ok());
    assert!(e.bid(2, 1, 1, 5, 0).is_ok());
    // The huddle's guest, the recorded bid and the reservation agree.
    let h = e.huddles(1).unwrap()[0];
    assert_eq!(h.guest, Some(2));
    assert_eq!(h.value, 5);
    let b = e.bids(2).unwrap()[0];
    assert_eq!(b.huddle, 1);
    assert_eq!(b.value, 5);
    assert_eq!(b.status, BidStatus::Winning);
    assert_eq!(e.reserved_balance(2), 5);
    // A higher bid displaces (2): the old reservation is released and
    // the old bid surpassed.
    assert!(e.bid(3, 1, 1, 7, 0).is_ok());
    let b = e.bids(2).unwrap()[0];
    assert_eq!(b.status, BidStatus::Surpassed);
    assert_eq!(b.value, 5);
    assert_eq!(e.free_balance(2), 50);
    assert_eq!(e.reserved_balance(2), 0);
    assert_eq!(e.reserved_balance(3), 7);
    assert_eq!(e.huddles(1).unwrap()[0].guest, Some(3));
    // A surpassed guest may bid again.
    assert!(e.bid(2, 1, 1, 9, 0).is_ok());
    assert_eq!(e.bids(2).unwrap()[0].status, BidStatus::Winning);
    assert_eq!(e.reserved_balance(2), 9);
    assert_eq!(e.reserved_balance(3), 0);
}

#[test]
fn raising_ones_own_bid_reuses_the_released_reservation() {
    let mut e = ops_setup();
    assert!(e.create(1, 100, 2, 0).is_ok());
    assert!(e.bid(2, 1, 1, 30, 0).is_ok());
    assert_eq!(e.free_balance(2), 20);
    assert_eq!(e.reserved_balance(2), 30);
    // 40 exceeds the free 20, but the released 30 covers the rest.
    assert!(e.bid(2, 1, 1, 40, 0).is_ok());
    assert_eq!(e.free_balance(2), 10);
    assert_eq!(e.reserved_balance(2), 40);
    assert_eq!(e.bids(2).unwrap().len(), 1);
    assert_eq!(e.bids(2).unwrap()[0].status, BidStatus::Winning);
}

#[test]
fn bids_respect_identifiers_and_deadlines() {
    let mut e = ops_setup();
    assert!(e.create(1, 100, 2, 0).is_ok());
    assert_eq!(e.bid(2, 1, 0, 5, 0), Err(Error::InvalidHuddleId));
    assert_eq!(e.bid(2, 1, 9, 5, 0), Err(Error::InvalidHuddleId));
    assert_eq!(e.bid(2, 3, 1, 5, 0), Err(Error::HostInvalidHuddleId));
    // Once the scheduled moment has passed, the slot takes no bids.
    assert_eq!(e.bid(2, 1, 1, 5, 101), Err(Error::InvalidTimestamp));
    assert!(e.bid(2, 1, 1, 5, 99).is_ok());
}

#[test]
fn claims_wait_for_the_deadline() {
    let mut e = ops_setup();
    assert!(e.create(1, 100, 2, 0).is_ok());
    assert!(e.bid(2, 1, 1, 5, 0).is_ok());
    // Unknown or foreign identifiers cannot be claimed.
    assert_eq!(e.claim(1, 0, 120), Err(Error::InvalidHuddleId));
    assert_eq!(e.claim(1, 9, 120), Err(Error::InvalidHuddleId));
    assert_eq!(e.claim(4, 1, 120), Err(Error::InvalidClaim));
    // Strictly before, and exactly at, the moment: not claimable.
    assert_eq!(e.claim(1, 1, 50), Err(Error::TimestampNotReached));
    assert_eq!(e.claim(1, 1, 100), Err(Error::TimestampNotReached));
    assert_eq!(e.free_balance(1), 50);
    assert_eq!(e.reserved_balance(2), 5);
    assert_eq!(e.huddles(1).unwrap()[0].status, HuddleStatus::InAuction);
    // Past the moment the host claims, and the reservation moves.
    assert_eq!(e.claim(1, 1, 101), Ok(Event::Claimed(1, 1, 5)));
    assert_eq!(e.free_balance(1), 55);
    assert_eq!(e.free_balance(2), 45);
    assert_eq!(e.reserved_balance(2), 0);
    assert_eq!(e.bids(2).unwrap()[0].status, BidStatus::Winner);
    assert_eq!(e.huddles(1).unwrap()[0].status, HuddleStatus::Concluded);
}

#[test]
fn a_concluded_huddle_cannot_be_claimed_or_bid_again() {
    let mut e = ops_setup();
    assert!(e.create(1, 100, 2, 0).is_ok());
    assert!(e.bid(2, 1, 1, 5, 0).is_ok());
    assert!(e.claim(1, 1, 120).is_ok());
    assert_eq!(e.free_balance(1), 55);
    // A second claim fails and repatriates nothing again.
    assert_eq!(e.claim(1, 1, 130), Err(Error::HuddleConcluded));
    assert_eq!(e.free_balance(1), 55);
    assert_eq!(e.free_balance(2), 45);
    // Nor does the huddle take bids or acceptance any more.
    assert_eq!(e.bid(3, 1, 1, 10, 130), Err(Error::HuddleConcluded));
    assert_eq!(e.accept(1, 1, 200, 130), Err(Error::HuddleConcluded));
}

#[test]
fn only_the_winner_rates_and_may_rerate() {
    let mut e = ops_setup();
    assert!(e.create(1, 100, 2, 0).is_ok());
    assert!(e.bid(2, 1, 1, 5, 0).is_ok());
    assert!(e.bid(3, 1, 1, 7, 0).is_ok());
    // Nobody can rate before the moment has passed.
    assert_eq!(e.rate(3, 1, 1, 5, 50), Err(Error::TimestampNotReached));
    assert!(e.claim(1, 1, 120).is_ok());
    // Six stars are out of range.
    assert_eq!(e.rate(3, 1, 1, 6, 120), Err(Error::MaxStarValueIsFive));
    // A guest whose bid was surpassed is not the winner.
    assert_eq!(e.rate(2, 1, 1, 5, 120), Err(Error::NotWinnerBid));
    // A bystander without any bid is not the winner either.
    assert_eq!(e.rate(4, 1, 1, 5, 120), Err(Error::NotWinnerBid));
    assert_eq!(e.huddles(1).unwrap()[0].stars, 0);
    // The winner rates, and a later rating overwrites the earlier one.
    assert_eq!(e.rate(3, 1, 1, 4, 120), Ok(Event::RatingSent(3, 1, 4)));
    assert_eq!(e.huddles(1).unwrap()[0].stars, 4);
    assert!(e.rate(3, 1, 1, 2, 130).is_ok());
    assert_eq!(e.huddles(1).unwrap()[0].stars, 2);
}

#[test]
fn bounded_collections_reject_overflowing_inserts() {
    let mut e = Engine::new(Config { max_huddles: 1, max_bids: 1, ..ops_config() });
    assert!(e.endow(2, 50));
    assert!(e.endow(3, 50));
    assert!(e.register(1, b"alice".to_vec(), b"proof".to_vec()).is_ok());
    assert!(e.register(4, b"dave".to_vec(), b"proof".to_vec()).is_ok());
    assert!(e.create(1, 100, 2, 0).is_ok());
    assert_eq!(e.create(1, 200, 2, 0), Err(Error::TooManyHuddles));
    assert_eq!(e.open(2, 1, 10), Err(Error::TooManyHuddles));
    // Guest (2) bids on (1)'s only huddle and is full afterwards.
    assert!(e.bid(2, 1, 1, 5, 0).is_ok());
    assert_eq!(e.open(2, 4, 10), Err(Error::TooManyBids));
    assert!(e.create(4, 100, 2, 0).is_ok());
    assert_eq!(e.bid(2, 4, 2, 5, 0), Err(Error::TooManyBids));
    // Raising the existing bid needs no new slot.
    assert!(e.bid(2, 1, 1, 8, 0).is_ok());
}

#[test]
fn reservations_need_free_funds() {
    let mut e = ops_setup();
    assert!(e.endow(5, 3));
    assert!(e.create(1, 100, 2, 0).is_ok());
    assert_eq!(e.bid(5, 1, 1, 5, 0), Err(Error::ReserveError));
    assert_eq!(e.free_balance(5), 3);
    assert_eq!(e.bids(5), None);
    assert_eq!(e.open(5, 1, 4), Err(Error::ReserveError));
    assert!(e.bid(2, 1, 1, 5, 0).is_ok());
}

#[test]
fn repatriation_must_fit_the_hosts_funds() {
    let mut e = Engine::new(ops_config());
    assert!(e.endow(1, u64::MAX));
    assert!(e.endow(2, 50));
    assert!(e.register(1, b"alice".to_vec(), b"proof".to_vec()).is_ok());
    assert!(e.create(1, 10, 1, 0).is_ok());
    assert!(e.bid(2, 1, 1, 3, 0).is_ok());
    // The host's funds cannot take three more units.
    assert_eq!(e.claim(1, 1, 20), Err(Error::RepatriateError));
    assert_eq!(e.huddles(1).unwrap()[0].status, HuddleStatus::InAuction);
    assert_eq!(e.reserved_balance(2), 3);
    // Endowing cannot push an account past the balance limit either.
    assert!(!e.endow(1, 1));
    assert_eq!(e.free_balance(1), u64::MAX);
}
