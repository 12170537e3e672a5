use twitch_tracker::ledger::{score, tally};
use twitch_tracker::scoring::{CountedDonations, DonationEvent, EventType, InvalidTier, SubscriptionEvent, Tier};

fn gift(tier: Option<i32>, amount: i64) -> DonationEvent {
    DonationEvent { id: 1, timestamp: 0, event_type: EventType::GiftSubs, amount, subscription_tier: tier }
}

fn sub(tier: Option<i32>) -> SubscriptionEvent {
    SubscriptionEvent { id: 1, timestamp: 0, subscription_tier: tier }
}

#[test]
fn tier_four_scores_as_tier_one() {
    assert_eq!(score(&vec![gift(Some(4), 300)], &vec![]), score(&vec![gift(Some(1), 300)], &vec![]));
    assert_eq!(score(&vec![gift(Some(1), 300)], &vec![]), 15);
    assert_eq!(score(&vec![], &vec![sub(Some(4))]), score(&vec![], &vec![sub(Some(1))]));
    assert_eq!(score(&vec![], &vec![sub(Some(4))]), 5);
}

#[test]
fn invalid_tiers_score_zero() {
    assert_eq!(score(&vec![gift(Some(0), 300), gift(Some(5), 300), gift(None, 300)], &vec![]), 0);
    assert_eq!(score(&vec![], &vec![sub(Some(0)), sub(Some(5)), sub(None)]), 0);
    let mut counted = CountedDonations::new();
    assert!(!counted.add_from_subscription_event(&sub(Some(5))));
    assert!(!counted.add_from_donation_event(&gift(Some(0), 100)));
    assert_eq!(counted, CountedDonations::new());
    assert!(counted.add_from_subscription_event(&sub(Some(2))));
    assert_eq!(counted.tier_2_subs, 100);
}

#[test]
fn tier_normalisation() {
    assert_eq!(Tier::from_raw(Some(1)), Ok(Tier::Tier1));
    assert_eq!(Tier::from_raw(Some(4)), Ok(Tier::Tier1));
    assert_eq!(Tier::from_raw(Some(2)), Ok(Tier::Tier2));
    assert_eq!(Tier::from_raw(Some(3)), Ok(Tier::Tier3));
    assert_eq!(Tier::from_raw(Some(5)), Err(InvalidTier { raw: Some(5) }));
    assert_eq!(Tier::from_raw(None), Err(InvalidTier { raw: None }));
}

#[test]
fn category_weights() {
    let bits = DonationEvent { id: 1, timestamp: 0, event_type: EventType::Bits, amount: 50_000, subscription_tier: None };
    assert_eq!(score(&vec![bits], &vec![]), 5);
    let dollars = DonationEvent { id: 2, timestamp: 0, event_type: EventType::StreamlabsDonation, amount: 1_234, subscription_tier: None };
    assert_eq!(score(&vec![dollars], &vec![]), 12);
    assert_eq!(score(&vec![gift(Some(2), 200)], &vec![]), 20);
    assert_eq!(score(&vec![gift(Some(3), 200)], &vec![]), 50);
    assert_eq!(score(&vec![], &vec![sub(Some(2)), sub(Some(3))]), 35);
}

#[test]
fn rounding_is_half_away_from_zero() {
    let bits = |amount: i64| DonationEvent { id: 1, timestamp: 0, event_type: EventType::Bits, amount, subscription_tier: None };
    // 150 bits are 1.5 points, 149 bits 1.49.
    assert_eq!(score(&vec![bits(15_000)], &vec![]), 2);
    assert_eq!(score(&vec![bits(14_900)], &vec![]), 1);
    let dollars = |amount: i64| DonationEvent { id: 1, timestamp: 0, event_type: EventType::StreamlabsDonation, amount, subscription_tier: None };
    assert_eq!(score(&vec![dollars(250)], &vec![]), 3);
    assert_eq!(score(&vec![dollars(-250)], &vec![]), -3);
    assert_eq!(score(&vec![dollars(249)], &vec![]), 2);
}

#[test]
fn totals_are_summed_before_rounding() {
    let bits = DonationEvent { id: 1, timestamp: 0, event_type: EventType::Bits, amount: 4_000, subscription_tier: None };
    let bits2 = DonationEvent { id: 2, timestamp: 0, event_type: EventType::Bits, amount: 4_000, subscription_tier: None };
    // 0.4 + 0.4 points round once to 1.
    assert_eq!(score(&vec![bits, bits2], &vec![]), 1);
    let counted = tally(&vec![bits, bits2], &vec![sub(Some(1))]);
    assert_eq!(counted.bits, 8_000);
    assert_eq!(counted.tier_1_subs, 100);
    assert_eq!(counted.into_points(), 6);
}
