use huddle::engine::Engine;
use huddle::types::Config;
use huddle::types::Error;
use huddle::types::Huddle;
use huddle::types::HuddleStatus;
use huddle::types::UserProfile;

fn test_config() -> Config {
    Config {
        max_social_account: 64,
        max_social_proof: 64,
        max_huddles: 64,
        max_bids: 64,
        min_schedule_lead: 1,
        min_bid_increment: 1,
    }
}

#[test]
fn huddle_works() {
    let mut e = Engine::new(test_config());
    assert!(e.endow(1, 50));
    assert!(e.endow(2, 50));
    assert!(e.endow(3, 50));

    // All 3 users have funds.
    assert_eq!(e.free_balance(1), 50);
    assert_eq!(e.free_balance(2), 50);
    assert_eq!(e.free_balance(3), 50);

    // register(host, social_account, social_proof).
    let bounded_name = (b"alice").to_vec();
    let bounded_proof = (b"alice's proof").to_vec();
    assert!(e.register(1, bounded_name.clone(), bounded_proof.clone()).is_ok());

    // Check that (1) is registered.
    assert_eq!(
        e.hosts(1),
        Some(UserProfile { social_account: bounded_name, social_proof: bounded_proof }),
    );

    // Creating a huddle for an unregistered host (2).
    assert_eq!(e.create(2, 100, 2, 0), Err(Error::HostNotRegistered));

    // Creating a huddle for a registered host (1) -> create(host, timestamp, value, now).
    assert!(e.create(1, 100, 2, 0).is_ok());

    // Checking the created huddle.
    assert_eq!(
        e.huddles(1),
        Some(vec![Huddle {
            id: 1,
            timestamp: 100,
            guest: None,
            value: 2,
            status: HuddleStatus::Created,
            stars: 0,
        }]),
    );

    // No huddles for (2).
    assert_eq!(e.huddles(2), None);

    // (2) bids with less than the minimum value -> bid(guest, host, huddle, value, now).
    assert_eq!(e.bid(2, 1, 1, 1, 0), Err(Error::BidIsTooLow));

    // (3) bids for (1)'s huddle.
    assert!(e.bid(3, 1, 1, 5, 0).is_ok());
    // (3) has reserved 5 for the bid's value.
    assert_eq!(e.free_balance(3), 45);

    // Checking the huddle.
    assert_eq!(
        e.huddles(1),
        Some(vec![Huddle {
            id: 1,
            timestamp: 100,
            guest: Some(3), // (3) is the winning guest.
            value: 5,
            status: HuddleStatus::InAuction,
            stars: 0,
        }]),
    );

    // (2) bids for (1)'s huddle.
    assert!(e.bid(2, 1, 1, 15, 0).is_ok());

    // Checking the huddle.
    assert_eq!(
        e.huddles(1),
        Some(vec![Huddle {
            id: 1,
            timestamp: 100,
            guest: Some(2), // (2) is the winning guest.
            value: 15,
            status: HuddleStatus::InAuction,
            stars: 0,
        }]),
    );

    // At moment 60 the slot is not claimable yet.
    assert_eq!(e.claim(1, 1, 60), Err(Error::TimestampNotReached));

    // At moment 120 > 100 the host claims the winning bid's funds.
    assert_eq!(e.free_balance(1), 50);
    assert!(e.claim(1, 1, 120).is_ok());

    // (1) now has 50 (initial) + 15 (bid's value claimed) free balance.
    assert_eq!(e.free_balance(1), 65);

    // The host cannot rate their own huddle.
    assert_eq!(e.rate(1, 1, 1, 5, 120), Err(Error::HostsCannotRateTheirHuddles));
    // (2), the winner, can rate the concluded huddle.
    assert!(e.rate(2, 1, 1, 3, 120).is_ok());
    // Checking the huddle.
    assert_eq!(
        e.huddles(1),
        Some(vec![Huddle {
            id: 1,
            timestamp: 100,
            guest: Some(2), // (2) is the winner guest.
            value: 15,
            status: HuddleStatus::Concluded,
            stars: 3,
        }]),
    );
}
