use vstd::prelude::*;

verus! {

/// Largest magnitude of an event amount, in hundredths of a unit.
pub const MAX_AMOUNT: i64 = 10_000_000_000;

/// Largest number of events of one kind that a run holds.
pub const MAX_EVENTS: usize = 1_000_000;

/// Points are computed in ten-thousandths: amounts are in hundredths of a
/// unit and the smallest weight is a hundredth of a point.
pub const POINT_SCALE: i128 = 10_000;

/// Weights in hundredths of a point per unit.
pub const WEIGHT_BITS: i128 = 1;
pub const WEIGHT_DOLLAR: i128 = 100;
pub const WEIGHT_TIER_1_SUB: i128 = 500;
pub const WEIGHT_TIER_2_SUB: i128 = 1000;
pub const WEIGHT_TIER_3_SUB: i128 = 2500;

/// Largest magnitude of the points one step can earn.
pub const MAX_STEP_POINTS: i64 = 8_300_000_000_000_000;

/// One whole unit, in hundredths.
pub const ONE_UNIT: i128 = 100;

#[derive(Clone, Copy, Debug, PartialEq, Eq, Structural)]
pub enum EventType {
    Bits,
    StreamlabsDonation,
    GiftSubs,
}

#[derive(Clone, Copy, Debug, PartialEq, Eq, Structural)]
pub enum Tier {
    Tier1,
    Tier2,
    Tier3,
}

/// A stored tier value outside 1 to 4 (or none at all).
#[derive(Clone, Copy, Debug, PartialEq, Eq, Structural)]
pub struct InvalidTier {
    pub raw: Option<i32>,
}

pub open spec fn tier_of(raw: Option<i32>) -> Option<Tier> {
    match raw {
        Some(1) | Some(4) => Some(Tier::Tier1),
        Some(2) => Some(Tier::Tier2),
        Some(3) => Some(Tier::Tier3),
        _ => None,
    }
}

impl Tier {
    /// Normalises a stored tier: 4 is the legacy spelling of tier 1.
    pub fn from_raw(raw: Option<i32>) -> (r: Result<Tier, InvalidTier>)
        ensures
            tier_of(raw) is Some ==> r == Ok::<Tier, InvalidTier>(tier_of(raw)->0),
            tier_of(raw) is None ==> r == Err::<Tier, InvalidTier>(InvalidTier { raw }),
    {
        match raw {
            Some(1) | Some(4) => Ok(Tier::Tier1),
            Some(2) => Ok(Tier::Tier2),
            Some(3) => Ok(Tier::Tier3),
            _ => Err(InvalidTier { raw }),
        }
    }
}

/// A monetary event: `amount` is in hundredths of a unit (bits, currency
/// units or gifted subscriptions, depending on `event_type`).
#[derive(Clone, Copy, Debug, PartialEq, Eq, Structural)]
pub struct DonationEvent {
    pub id: i32,
    pub timestamp: i64,
    pub event_type: EventType,
    pub amount: i64,
    pub subscription_tier: Option<i32>,
}

#[derive(Clone, Copy, Debug, PartialEq, Eq, Structural)]
pub struct SubscriptionEvent {
    pub id: i32,
    pub timestamp: i64,
    pub subscription_tier: Option<i32>,
}

impl DonationEvent {
    pub open spec fn amount_ok(self) -> bool {
        -MAX_AMOUNT <= self.amount <= MAX_AMOUNT
    }
}

/// Running totals per category, each in hundredths of a unit.
#[derive(Clone, Copy, Debug, PartialEq, Eq, Structural)]
pub struct CountedDonations {
    pub bits: i128,
    pub direct_donations: i128,
    pub tier_1_subs: i128,
    pub tier_2_subs: i128,
    pub tier_3_subs: i128,
}

/// What one monetary event adds, as (bits, dollars, tier 1, tier 2, tier 3).
pub open spec fn donation_share(e: DonationEvent) -> (int, int, int, int, int) {
    let a = e.amount as int;
    match e.event_type {
        EventType::Bits => (a, 0, 0, 0, 0),
        EventType::StreamlabsDonation => (0, a, 0, 0, 0),
        EventType::GiftSubs => match tier_of(e.subscription_tier) {
            Some(Tier::Tier1) => (0, 0, a, 0, 0),
            Some(Tier::Tier2) => (0, 0, 0, a, 0),
            Some(Tier::Tier3) => (0, 0, 0, 0, a),
            None => (0, 0, 0, 0, 0),
        },
    }
}

/// What one subscription event adds: one whole subscription at its tier.
pub open spec fn subscription_share(e: SubscriptionEvent) -> (int, int, int, int, int) {
    match tier_of(e.subscription_tier) {
        Some(Tier::Tier1) => (0, 0, ONE_UNIT as int, 0, 0),
        Some(Tier::Tier2) => (0, 0, 0, ONE_UNIT as int, 0),
        Some(Tier::Tier3) => (0, 0, 0, 0, ONE_UNIT as int),
        None => (0, 0, 0, 0, 0),
    }
}

pub open spec fn donation_counts(e: DonationEvent) -> bool {
    e.event_type != EventType::GiftSubs || tier_of(e.subscription_tier) is Some
}

/// Weighted value in ten-thousandths of a point of a category split.
pub open spec fn weigh(s: (int, int, int, int, int)) -> int {
    s.0 * WEIGHT_BITS + s.1 * WEIGHT_DOLLAR + s.2 * WEIGHT_TIER_1_SUB + s.3 * WEIGHT_TIER_2_SUB
        + s.4 * WEIGHT_TIER_3_SUB
}

/// Division by a positive `d`, rounding to the nearest integer with ties
/// away from zero.
pub open spec fn round_div(n: int, d: int) -> int
    recommends
        d > 0,
{
    if n >= 0 {
        (n + d / 2) / d
    } else {
        -((-n + d / 2) / d)
    }
}

/// Points earned by a batch of events: the exact weighted sum, rounded once.
pub open spec fn points_of(
    donations: Seq<DonationEvent>,
    subscriptions: Seq<SubscriptionEvent>,
) -> int {
    round_div(
        donations_weight(donations) + subscriptions_weight(subscriptions),
        POINT_SCALE as int,
    )
}

pub open spec fn donations_weight(ds: Seq<DonationEvent>) -> int
    decreases ds.len(),
{
    if ds.len() == 0 {
        0
    } else {
        donations_weight(ds.drop_last()) + weigh(donation_share(ds.last()))
    }
}

pub open spec fn subscriptions_weight(ss: Seq<SubscriptionEvent>) -> int
    decreases ss.len(),
{
    if ss.len() == 0 {
        0
    } else {
        subscriptions_weight(ss.drop_last()) + weigh(subscription_share(ss.last()))
    }
}

impl CountedDonations {
    pub open spec fn totals(self) -> (int, int, int, int, int) {
        (
            self.bits as int,
            self.direct_donations as int,
            self.tier_1_subs as int,
            self.tier_2_subs as int,
            self.tier_3_subs as int,
        )
    }

    pub open spec fn weight(self) -> int {
        weigh(self.totals())
    }

    /// Every total stays within what `n` events of the largest amount reach.
    pub open spec fn bounded_by(self, n: int) -> bool {
        &&& -n * MAX_AMOUNT <= self.bits <= n * MAX_AMOUNT
        &&& -n * MAX_AMOUNT <= self.direct_donations <= n * MAX_AMOUNT
        &&& -n * MAX_AMOUNT <= self.tier_1_subs <= n * MAX_AMOUNT
        &&& -n * MAX_AMOUNT <= self.tier_2_subs <= n * MAX_AMOUNT
        &&& -n * MAX_AMOUNT <= self.tier_3_subs <= n * MAX_AMOUNT
    }

    pub fn new() -> (r: CountedDonations)
        ensures
            r.totals() == (0int, 0int, 0int, 0int, 0int),
            r.weight() == 0,
    {
        CountedDonations {
            bits: 0,
            direct_donations: 0,
            tier_1_subs: 0,
            tier_2_subs: 0,
            tier_3_subs: 0,
        }
    }

    /// Adds a monetary event to its category. A gifted-subscription event
    /// whose tier is not 1 to 4 adds nothing and gives `false`.
    pub fn add_from_donation_event(&mut self, donation_event: &DonationEvent) -> (counted: bool)
        requires
            donation_event.amount_ok(),
            old(self).bounded_by(2 * MAX_EVENTS as int),
        ensures
            counted == donation_counts(*donation_event),
            final(self).totals() == ({
                let (a, b, c, d, e) = old(self).totals();
                let (x, y, z, u, v) = donation_share(*donation_event);
                (a + x, b + y, c + z, d + u, e + v)
            }),
            final(self).weight() == old(self).weight() + weigh(donation_share(*donation_event)),
    {
        let amount = donation_event.amount as i128;
        match donation_event.event_type {
            EventType::Bits => {
                self.bits = self.bits + amount;
                true
            },
            EventType::StreamlabsDonation => {
                self.direct_donations = self.direct_donations + amount;
                true
            },
            EventType::GiftSubs => match Tier::from_raw(donation_event.subscription_tier) {
                Ok(Tier::Tier1) => {
                    self.tier_1_subs = self.tier_1_subs + amount;
                    true
                },
                Ok(Tier::Tier2) => {
                    self.tier_2_subs = self.tier_2_subs + amount;
                    true
                },
                Ok(Tier::Tier3) => {
                    self.tier_3_subs = self.tier_3_subs + amount;
                    true
                },
                Err(_) => false,
            },
        }
    }

    /// Adds one whole subscription at the event's tier. An event whose tier
    /// is not 1 to 4 adds nothing and gives `false`.
    pub fn add_from_subscription_event(&mut self, subscription_event: &SubscriptionEvent) -> (counted: bool)
        requires
            old(self).bounded_by(2 * MAX_EVENTS as int),
        ensures
            counted == (tier_of(subscription_event.subscription_tier) is Some),
            final(self).totals() == ({
                let (a, b, c, d, e) = old(self).totals();
                let (x, y, z, u, v) = subscription_share(*subscription_event);
                (a + x, b + y, c + z, d + u, e + v)
            }),
            final(self).weight() == old(self).weight() + weigh(
                subscription_share(*subscription_event),
            ),
    {
        match Tier::from_raw(subscription_event.subscription_tier) {
            Ok(Tier::Tier1) => {
                self.tier_1_subs = self.tier_1_subs + ONE_UNIT;
                true
            },
            Ok(Tier::Tier2) => {
                self.tier_2_subs = self.tier_2_subs + ONE_UNIT;
                true
            },
            Ok(Tier::Tier3) => {
                self.tier_3_subs = self.tier_3_subs + ONE_UNIT;
                true
            },
            Err(_) => false,
        }
    }

    /// The weighted sum of all categories, rounded to whole points.
    pub fn into_points(self) -> (points: i64)
        requires
            self.bounded_by(2 * MAX_EVENTS as int + 1),
        ensures
            points == round_div(self.weight(), POINT_SCALE as int),
            -MAX_STEP_POINTS <= points <= MAX_STEP_POINTS,
    {
        let total: i128 = self.bits * WEIGHT_BITS + self.direct_donations * WEIGHT_DOLLAR
            + self.tier_1_subs * WEIGHT_TIER_1_SUB + self.tier_2_subs * WEIGHT_TIER_2_SUB
            + self.tier_3_subs * WEIGHT_TIER_3_SUB;
        let rounded = if total >= 0 {
            (total + POINT_SCALE / 2) / POINT_SCALE
        } else {
            -((-total + POINT_SCALE / 2) / POINT_SCALE)
        };
        rounded as i64
    }
}

/// Tier 4 scores as tier 1, for gifted subscriptions and for subscription
/// events alike; a tier outside 1 to 4 (such as 0 or 5) scores nothing and
/// is reported as not counted.
pub proof fn lemma_tier_aliasing(e: DonationEvent, s: SubscriptionEvent, bad: i32)
    requires
        bad < 1 || bad > 4,
    ensures
        donation_share(DonationEvent { subscription_tier: Some(4), ..e }) == donation_share(
            DonationEvent { subscription_tier: Some(1), ..e },
        ),
        subscription_share(SubscriptionEvent { subscription_tier: Some(4), ..s })
            == subscription_share(SubscriptionEvent { subscription_tier: Some(1), ..s }),
        e.event_type == EventType::GiftSubs ==> weigh(
            donation_share(DonationEvent { subscription_tier: Some(bad), ..e }),
        ) == 0 && !donation_counts(DonationEvent { subscription_tier: Some(bad), ..e }),
        weigh(subscription_share(SubscriptionEvent { subscription_tier: Some(bad), ..s })) == 0,
        tier_of(Some(bad)) is None,
{
}

} // verus!
