use vstd::prelude::*;

use crate::scoring::{
    donations_weight, points_of, subscriptions_weight, CountedDonations, DonationEvent,
    SubscriptionEvent, MAX_EVENTS,
};
use std::collections::HashSet;

verus! {

broadcast use vstd::std_specs::hash::group_hash_axioms;

/// The events of a run and the identifiers already scored.
pub struct StoredDonations {
    donation_events: Vec<DonationEvent>,
    subscription_events: Vec<SubscriptionEvent>,
    used_donation_ids: HashSet<i32>,
    used_subscription_ids: HashSet<i32>,
}

pub struct LedgerView {
    pub donations: Seq<DonationEvent>,
    pub subscriptions: Seq<SubscriptionEvent>,
    pub used_donations: Set<i32>,
    pub used_subscriptions: Set<i32>,
}

/// Events that a ledger may hold: few enough, and amounts small enough, that
/// every total fits its integer type.
pub open spec fn events_ok(ds: Seq<DonationEvent>, ss: Seq<SubscriptionEvent>) -> bool {
    &&& ds.len() <= MAX_EVENTS
    &&& ss.len() <= MAX_EVENTS
    &&& forall|k: int| 0 <= k < ds.len() ==> (#[trigger] ds[k]).amount_ok()
}

pub open spec fn donation_pending(used: Set<i32>, cutoff: int) -> spec_fn(DonationEvent) -> bool {
    |e: DonationEvent| e.timestamp <= cutoff && !used.contains(e.id)
}

pub open spec fn subscription_pending(used: Set<i32>, cutoff: int) -> spec_fn(
    SubscriptionEvent,
) -> bool {
    |e: SubscriptionEvent| e.timestamp <= cutoff && !used.contains(e.id)
}

/// The stored monetary events, in stored order, that are due by `cutoff`
/// and not yet used.
pub open spec fn pending_donations(ds: Seq<DonationEvent>, used: Set<i32>, cutoff: int) -> Seq<
    DonationEvent,
> {
    ds.filter(donation_pending(used, cutoff))
}

pub open spec fn pending_subscriptions(
    ss: Seq<SubscriptionEvent>,
    used: Set<i32>,
    cutoff: int,
) -> Seq<SubscriptionEvent> {
    ss.filter(subscription_pending(used, cutoff))
}

pub open spec fn donation_ids(ds: Seq<DonationEvent>) -> Set<i32> {
    Set::new(|id: i32| exists|k: int| 0 <= k < ds.len() && ds[k].id == id)
}

pub open spec fn subscription_ids(ss: Seq<SubscriptionEvent>) -> Set<i32> {
    Set::new(|id: i32| exists|k: int| 0 <= k < ss.len() && ss[k].id == id)
}

impl LedgerView {
    pub open spec fn wf(self) -> bool {
        events_ok(self.donations, self.subscriptions)
    }

    /// The ledger after consuming everything due by `cutoff`.
    pub open spec fn after(self, cutoff: int) -> LedgerView {
        LedgerView {
            donations: self.donations,
            subscriptions: self.subscriptions,
            used_donations: self.used_donations.union(
                donation_ids(pending_donations(self.donations, self.used_donations, cutoff)),
            ),
            used_subscriptions: self.used_subscriptions.union(
                subscription_ids(
                    pending_subscriptions(self.subscriptions, self.used_subscriptions, cutoff),
                ),
            ),
        }
    }

    pub open spec fn due_donations(self, cutoff: int) -> Seq<DonationEvent> {
        pending_donations(self.donations, self.used_donations, cutoff)
    }

    pub open spec fn due_subscriptions(self, cutoff: int) -> Seq<SubscriptionEvent> {
        pending_subscriptions(self.subscriptions, self.used_subscriptions, cutoff)
    }

    /// Points earned by consuming up to `cutoff` from this ledger.
    pub open spec fn points_up_to(self, cutoff: int) -> int {
        points_of(self.due_donations(cutoff), self.due_subscriptions(cutoff))
    }
}

impl View for StoredDonations {
    type V = LedgerView;

    closed spec fn view(&self) -> LedgerView {
        LedgerView {
            donations: self.donation_events@,
            subscriptions: self.subscription_events@,
            used_donations: self.used_donation_ids@,
            used_subscriptions: self.used_subscription_ids@,
        }
    }
}

pub(crate) proof fn lemma_filter_step<A>(s: Seq<A>, pred: spec_fn(A) -> bool, i: int)
    requires
        0 <= i < s.len(),
    ensures
        s.subrange(0, i + 1).filter(pred) == (if pred(s[i]) {
            s.subrange(0, i).filter(pred).push(s[i])
        } else {
            s.subrange(0, i).filter(pred)
        }),
{
    reveal(Seq::filter);
    assert(s.subrange(0, i + 1).drop_last() =~= s.subrange(0, i));
}

/// Selects, in order, the monetary events with `timestamp <= end` whose
/// identifier is not in `used`.
fn select_donations(events: &Vec<DonationEvent>, used: &HashSet<i32>, end: i64) -> (r: Vec<
    DonationEvent,
>)
    ensures
        r@ == pending_donations(events@, used@, end as int),
{
    let mut r: Vec<DonationEvent> = Vec::new();
    let mut i: usize = 0;
    while i < events.len()
        invariant
            i <= events.len(),
            r@ == events@.subrange(0, i as int).filter(donation_pending(used@, end as int)),
        decreases events.len() - i,
    {
        proof {
            lemma_filter_step(events@, donation_pending(used@, end as int), i as int);
        }
        let e = events[i];
        if e.timestamp <= end && !used.contains(&e.id) {
            r.push(e);
        }
        i = i + 1;
    }
    assert(events@.subrange(0, events.len() as int) =~= events@);
    r
}

fn select_subscriptions(events: &Vec<SubscriptionEvent>, used: &HashSet<i32>, end: i64) -> (r:
    Vec<SubscriptionEvent>)
    ensures
        r@ == pending_subscriptions(events@, used@, end as int),
{
    let mut r: Vec<SubscriptionEvent> = Vec::new();
    let mut i: usize = 0;
    while i < events.len()
        invariant
            i <= events.len(),
            r@ == events@.subrange(0, i as int).filter(subscription_pending(used@, end as int)),
        decreases events.len() - i,
    {
        proof {
            lemma_filter_step(events@, subscription_pending(used@, end as int), i as int);
        }
        let e = events[i];
        if e.timestamp <= end && !used.contains(&e.id) {
            r.push(e);
        }
        i = i + 1;
    }
    assert(events@.subrange(0, events.len() as int) =~= events@);
    r
}

fn mark_donations(used: &mut HashSet<i32>, batch: &Vec<DonationEvent>)
    ensures
        final(used)@ == old(used)@.union(donation_ids(batch@)),
{
    let mut j: usize = 0;
    while j < batch.len()
        invariant
            j <= batch.len(),
            used@ == old(used)@.union(donation_ids(batch@.subrange(0, j as int))),
        decreases batch.len() - j,
    {
        used.insert(batch[j].id);
        proof {
            let prev = batch@.subrange(0, j as int);
            let next = batch@.subrange(0, j + 1);
            assert forall|id: i32| #[trigger] donation_ids(next).contains(id) <==> donation_ids(
                prev,
            ).contains(id) || id == batch@[j as int].id by {
                if donation_ids(next).contains(id) {
                    let k = choose|k: int| 0 <= k < next.len() && next[k].id == id;
                    if k < j {
                        assert(prev[k] == next[k]);
                    }
                }
                if donation_ids(prev).contains(id) {
                    let k = choose|k: int| 0 <= k < prev.len() && prev[k].id == id;
                    assert(prev[k] == next[k]);
                }
                if id == batch@[j as int].id {
                    assert(next[j as int].id == id);
                }
            }
            assert(used@ =~= old(used)@.union(donation_ids(next)));
        }
        j = j + 1;
    }
    assert(batch@.subrange(0, batch.len() as int) =~= batch@);
}

fn mark_subscriptions(used: &mut HashSet<i32>, batch: &Vec<SubscriptionEvent>)
    ensures
        final(used)@ == old(used)@.union(subscription_ids(batch@)),
{
    let mut j: usize = 0;
    while j < batch.len()
        invariant
            j <= batch.len(),
            used@ == old(used)@.union(subscription_ids(batch@.subrange(0, j as int))),
        decreases batch.len() - j,
    {
        used.insert(batch[j].id);
        proof {
            let prev = batch@.subrange(0, j as int);
            let next = batch@.subrange(0, j + 1);
            assert forall|id: i32| #[trigger]
                subscription_ids(next).contains(id) <==> subscription_ids(prev).contains(id) || id
                    == batch@[j as int].id by {
                if subscription_ids(next).contains(id) {
                    let k = choose|k: int| 0 <= k < next.len() && next[k].id == id;
                    if k < j {
                        assert(prev[k] == next[k]);
                    }
                }
                if subscription_ids(prev).contains(id) {
                    let k = choose|k: int| 0 <= k < prev.len() && prev[k].id == id;
                    assert(prev[k] == next[k]);
                }
                if id == batch@[j as int].id {
                    assert(next[j as int].id == id);
                }
            }
            assert(used@ =~= old(used)@.union(subscription_ids(next)));
        }
        j = j + 1;
    }
    assert(batch@.subrange(0, batch.len() as int) =~= batch@);
}

/// Category totals of a batch of events.
pub fn tally(donations: &Vec<DonationEvent>, subscriptions: &Vec<SubscriptionEvent>) -> (r:
    CountedDonations)
    requires
        events_ok(donations@, subscriptions@),
    ensures
        r.weight() == donations_weight(donations@) + subscriptions_weight(subscriptions@),
        r.bounded_by(2 * MAX_EVENTS as int),
{
    let mut counted = CountedDonations::new();
    let mut i: usize = 0;
    while i < donations.len()
        invariant
            i <= donations.len(),
            events_ok(donations@, subscriptions@),
            counted.bounded_by(i as int),
            counted.weight() == donations_weight(donations@.subrange(0, i as int)),
        decreases donations.len() - i,
    {
        assert(donations@[i as int].amount_ok());
        counted.add_from_donation_event(&donations[i]);
        assert(donations@.subrange(0, i + 1).drop_last() =~= donations@.subrange(0, i as int));
        i = i + 1;
    }
    assert(donations@.subrange(0, donations.len() as int) =~= donations@);
    let mut j: usize = 0;
    while j < subscriptions.len()
        invariant
            j <= subscriptions.len(),
            events_ok(donations@, subscriptions@),
            counted.bounded_by(donations.len() + j),
            counted.weight() == donations_weight(donations@) + subscriptions_weight(
                subscriptions@.subrange(0, j as int),
            ),
        decreases subscriptions.len() - j,
    {
        counted.add_from_subscription_event(&subscriptions[j]);
        assert(subscriptions@.subrange(0, j + 1).drop_last() =~= subscriptions@.subrange(
            0,
            j as int,
        ));
        j = j + 1;
    }
    assert(subscriptions@.subrange(0, subscriptions.len() as int) =~= subscriptions@);
    counted
}

/// The points that a batch of events earns.
pub fn score(donations: &Vec<DonationEvent>, subscriptions: &Vec<SubscriptionEvent>) -> (points:
    i64)
    requires
        events_ok(donations@, subscriptions@),
    ensures
        points == points_of(donations@, subscriptions@),
{
    let counted = tally(donations, subscriptions);
    counted.into_points()
}

proof fn lemma_filter_keeps_ok(ds: Seq<DonationEvent>, ss: Seq<SubscriptionEvent>, used_d: Set<i32>, used_s: Set<i32>, cutoff: int)
    requires
        events_ok(ds, ss),
    ensures
        events_ok(pending_donations(ds, used_d, cutoff), pending_subscriptions(ss, used_s, cutoff)),
{
    broadcast use vstd::seq_lib::group_filter_ensures;
    let pd = pending_donations(ds, used_d, cutoff);
    assert forall|k: int| 0 <= k < pd.len() implies (#[trigger] pd[k]).amount_ok() by {
        assert(pd.contains(pd[k]));
        ds.lemma_filter_contains_rev(donation_pending(used_d, cutoff), pd[k]);
        let w = choose|w: int| 0 <= w < ds.len() && ds[w] == pd[k];
        assert(ds[w].amount_ok());
    }
    ds.lemma_filter_len(donation_pending(used_d, cutoff));
    ss.lemma_filter_len(subscription_pending(used_s, cutoff));
}

/// The ledger after consuming at each cutoff of `cutoffs` in turn.
pub open spec fn ledger_after_all(l: LedgerView, cutoffs: Seq<int>) -> LedgerView
    decreases cutoffs.len(),
{
    if cutoffs.len() == 0 {
        l
    } else {
        ledger_after_all(l, cutoffs.drop_last()).after(cutoffs.last())
    }
}

/// Every monetary event handed out over the calls at `cutoffs`, batch after
/// batch.
pub open spec fn consumed_donations(l: LedgerView, cutoffs: Seq<int>) -> Seq<DonationEvent>
    decreases cutoffs.len(),
{
    if cutoffs.len() == 0 {
        Seq::empty()
    } else {
        let before = ledger_after_all(l, cutoffs.drop_last());
        consumed_donations(l, cutoffs.drop_last()) + before.due_donations(cutoffs.last())
    }
}

/// Every subscription event handed out over the calls at `cutoffs`.
pub open spec fn consumed_subscriptions(l: LedgerView, cutoffs: Seq<int>) -> Seq<
    SubscriptionEvent,
>
    decreases cutoffs.len(),
{
    if cutoffs.len() == 0 {
        Seq::empty()
    } else {
        let before = ledger_after_all(l, cutoffs.drop_last());
        consumed_subscriptions(l, cutoffs.drop_last()) + before.due_subscriptions(cutoffs.last())
    }
}

pub open spec fn nondecreasing(cutoffs: Seq<int>) -> bool {
    forall|i: int, j: int| 0 <= i < j < cutoffs.len() ==> cutoffs[i] <= cutoffs[j]
}

pub open spec fn unique_donation_ids(ds: Seq<DonationEvent>) -> bool {
    forall|i: int, j: int| 0 <= i < j < ds.len() ==> (#[trigger] ds[i]).id != (#[trigger] ds[j]).id
}

pub open spec fn unique_subscription_ids(ss: Seq<SubscriptionEvent>) -> bool {
    forall|i: int, j: int| 0 <= i < j < ss.len() ==> (#[trigger] ss[i]).id != (#[trigger] ss[j]).id
}

proof fn lemma_filter_members<A>(s: Seq<A>, pred: spec_fn(A) -> bool)
    ensures
        forall|e: A| #[trigger] s.filter(pred).contains(e) <==> s.contains(e) && pred(e),
{
    broadcast use vstd::seq_lib::group_filter_ensures;
    assert forall|e: A| #[trigger] s.filter(pred).contains(e) <==> s.contains(e) && pred(e) by {
        if s.filter(pred).contains(e) {
            s.lemma_filter_contains_rev(pred, e);
            let k = choose|k: int| 0 <= k < s.filter(pred).len() && s.filter(pred)[k] == e;
            assert(pred(s.filter(pred)[k]));
        }
        if s.contains(e) && pred(e) {
            let k = choose|k: int| 0 <= k < s.len() && s[k] == e;
            s.lemma_filter_contains(pred, k);
        }
    }
}

proof fn lemma_filter_no_dup<A>(s: Seq<A>, pred: spec_fn(A) -> bool)
    requires
        s.no_duplicates(),
    ensures
        s.filter(pred).no_duplicates(),
    decreases s.len(),
{
    reveal(Seq::filter);
    if s.len() > 0 {
        let init = s.drop_last();
        assert(init.no_duplicates()) by {
            assert forall|i: int, j: int|
                0 <= i < init.len() && 0 <= j < init.len() && i != j implies init[i] != init[j] by {
                assert(init[i] == s[i] && init[j] == s[j]);
            }
        }
        lemma_filter_no_dup(init, pred);
        if pred(s.last()) {
            lemma_filter_members(init, pred);
            assert(!init.contains(s.last())) by {
                if init.contains(s.last()) {
                    let k = choose|k: int| 0 <= k < init.len() && init[k] == s.last();
                    assert(s[k] == s[s.len() - 1]);
                }
            }
            let f = init.filter(pred);
            assert forall|i: int, j: int|
                0 <= i < f.push(s.last()).len() && 0 <= j < f.push(s.last()).len() && i != j implies f.push(
                s.last(),
            )[i] != f.push(s.last())[j] by {
                if i == f.len() {
                    assert(!f.contains(s.last()));
                    assert(f.push(s.last())[j] == f[j]);
                } else if j == f.len() {
                    assert(!f.contains(s.last()));
                    assert(f.push(s.last())[i] == f[i]);
                } else {
                    assert(f.push(s.last())[i] == f[i]);
                    assert(f.push(s.last())[j] == f[j]);
                }
            }
        }
    }
}

proof fn lemma_donation_ids_concat(a: Seq<DonationEvent>, b: Seq<DonationEvent>)
    ensures
        donation_ids(a + b) == donation_ids(a).union(donation_ids(b)),
{
    assert forall|id: i32| #[trigger] donation_ids(a + b).contains(id) <==> donation_ids(a).union(
        donation_ids(b),
    ).contains(id) by {
        if donation_ids(a + b).contains(id) {
            let k = choose|k: int| 0 <= k < (a + b).len() && (a + b)[k].id == id;
            if k < a.len() {
                assert(a[k].id == id);
            } else {
                assert(b[k - a.len()].id == id);
            }
        }
        if donation_ids(a).contains(id) {
            let k = choose|k: int| 0 <= k < a.len() && a[k].id == id;
            assert((a + b)[k].id == id);
        }
        if donation_ids(b).contains(id) {
            let k = choose|k: int| 0 <= k < b.len() && b[k].id == id;
            assert((a + b)[a.len() + k].id == id);
        }
    }
    assert(donation_ids(a + b) =~= donation_ids(a).union(donation_ids(b)));
}

proof fn lemma_subscription_ids_concat(a: Seq<SubscriptionEvent>, b: Seq<SubscriptionEvent>)
    ensures
        subscription_ids(a + b) == subscription_ids(a).union(subscription_ids(b)),
{
    assert forall|id: i32| #[trigger] subscription_ids(a + b).contains(id) <==> subscription_ids(
        a,
    ).union(subscription_ids(b)).contains(id) by {
        if subscription_ids(a + b).contains(id) {
            let k = choose|k: int| 0 <= k < (a + b).len() && (a + b)[k].id == id;
            if k < a.len() {
                assert(a[k].id == id);
            } else {
                assert(b[k - a.len()].id == id);
            }
        }
        if subscription_ids(a).contains(id) {
            let k = choose|k: int| 0 <= k < a.len() && a[k].id == id;
            assert((a + b)[k].id == id);
        }
        if subscription_ids(b).contains(id) {
            let k = choose|k: int| 0 <= k < b.len() && b[k].id == id;
            assert((a + b)[a.len() + k].id == id);
        }
    }
    assert(subscription_ids(a + b) =~= subscription_ids(a).union(subscription_ids(b)));
}

proof fn lemma_consumed_donations(l: LedgerView, cutoffs: Seq<int>)
    requires
        l.used_donations == Set::<i32>::empty(),
        nondecreasing(cutoffs),
        unique_donation_ids(l.donations),
    ensures
        ledger_after_all(l, cutoffs).donations == l.donations,
        ledger_after_all(l, cutoffs).used_donations == donation_ids(consumed_donations(l, cutoffs)),
        consumed_donations(l, cutoffs).no_duplicates(),
        cutoffs.len() > 0 ==> forall|e: DonationEvent| #[trigger]
            consumed_donations(l, cutoffs).contains(e) <==> l.donations.contains(e) && e.timestamp
                <= cutoffs.last(),
    decreases cutoffs.len(),
{
    let ds = l.donations;
    if cutoffs.len() == 0 {
        assert(donation_ids(Seq::<DonationEvent>::empty()) =~= Set::<i32>::empty());
    } else {
        let prev = cutoffs.drop_last();
        let c = cutoffs.last();
        lemma_consumed_donations(l, prev);
        let lp = ledger_after_all(l, prev);
        let old_c = consumed_donations(l, prev);
        let pred = donation_pending(lp.used_donations, c);
        let batch = ds.filter(pred);
        lemma_donation_ids_concat(old_c, batch);
        lemma_filter_members(ds, pred);
        assert(ds.no_duplicates()) by {
            assert forall|i: int, j: int|
                0 <= i < ds.len() && 0 <= j < ds.len() && i != j implies ds[i] != ds[j] by {
                if i < j {
                    assert(ds[i].id != ds[j].id);
                } else {
                    assert(ds[j].id != ds[i].id);
                }
            }
        }
        lemma_filter_no_dup(ds, pred);
        // Members of earlier batches are due by the previous cutoff.
        assert forall|e: DonationEvent| #[trigger] old_c.contains(e) implies ds.contains(e)
            && e.timestamp <= c by {
            if prev.len() > 0 {
                assert(prev.last() == cutoffs[prev.len() - 1]);
                assert(cutoffs[prev.len() - 1] <= cutoffs[cutoffs.len() - 1]);
            }
        }
        assert forall|i: int, j: int| 0 <= i < old_c.len() && 0 <= j < batch.len() implies old_c[i]
            != batch[j] by {
            assert(old_c.contains(old_c[i]));
            assert(batch.contains(batch[j]));
            assert(donation_ids(old_c).contains(old_c[i].id));
        }
        vstd::seq_lib::lemma_no_dup_in_concat(old_c, batch);
        let now_c = old_c + batch;
        assert(consumed_donations(l, cutoffs) == now_c);
        assert forall|e: DonationEvent| #[trigger] now_c.contains(e) <==> ds.contains(e)
            && e.timestamp <= c by {
            if now_c.contains(e) {
                let k = choose|k: int| 0 <= k < now_c.len() && now_c[k] == e;
                if k < old_c.len() {
                    assert(old_c.contains(old_c[k]));
                } else {
                    assert(batch.contains(batch[k - old_c.len()]));
                }
            }
            if ds.contains(e) && e.timestamp <= c {
                if lp.used_donations.contains(e.id) {
                    let k = choose|k: int| 0 <= k < old_c.len() && old_c[k].id == e.id;
                    assert(old_c.contains(old_c[k]));
                    let a = choose|a: int| 0 <= a < ds.len() && ds[a] == old_c[k];
                    let b = choose|b: int| 0 <= b < ds.len() && ds[b] == e;
                    if a < b {
                        assert(ds[a].id != ds[b].id);
                    } else if b < a {
                        assert(ds[b].id != ds[a].id);
                    }
                    assert(now_c[k] == old_c[k]);
                } else {
                    assert(batch.contains(e));
                    let k = choose|k: int| 0 <= k < batch.len() && batch[k] == e;
                    assert(now_c[old_c.len() + k] == e);
                }
            }
        }
    }
}

proof fn lemma_consumed_subscriptions(l: LedgerView, cutoffs: Seq<int>)
    requires
        l.used_subscriptions == Set::<i32>::empty(),
        nondecreasing(cutoffs),
        unique_subscription_ids(l.subscriptions),
    ensures
        ledger_after_all(l, cutoffs).subscriptions == l.subscriptions,
        ledger_after_all(l, cutoffs).used_subscriptions == subscription_ids(
            consumed_subscriptions(l, cutoffs),
        ),
        consumed_subscriptions(l, cutoffs).no_duplicates(),
        cutoffs.len() > 0 ==> forall|e: SubscriptionEvent| #[trigger]
            consumed_subscriptions(l, cutoffs).contains(e) <==> l.subscriptions.contains(e)
                && e.timestamp <= cutoffs.last(),
    decreases cutoffs.len(),
{
    let ds = l.subscriptions;
    if cutoffs.len() == 0 {
        assert(subscription_ids(Seq::<SubscriptionEvent>::empty()) =~= Set::<i32>::empty());
    } else {
        let prev = cutoffs.drop_last();
        let c = cutoffs.last();
        lemma_consumed_subscriptions(l, prev);
        let lp = ledger_after_all(l, prev);
        let old_c = consumed_subscriptions(l, prev);
        let pred = subscription_pending(lp.used_subscriptions, c);
        let batch = ds.filter(pred);
        lemma_subscription_ids_concat(old_c, batch);
        lemma_filter_members(ds, pred);
        assert(ds.no_duplicates()) by {
            assert forall|i: int, j: int|
                0 <= i < ds.len() && 0 <= j < ds.len() && i != j implies ds[i] != ds[j] by {
                if i < j {
                    assert(ds[i].id != ds[j].id);
                } else {
                    assert(ds[j].id != ds[i].id);
                }
            }
        }
        lemma_filter_no_dup(ds, pred);
        assert forall|e: SubscriptionEvent| #[trigger] old_c.contains(e) implies ds.contains(e)
            && e.timestamp <= c by {
            if prev.len() > 0 {
                assert(prev.last() == cutoffs[prev.len() - 1]);
                assert(cutoffs[prev.len() - 1] <= cutoffs[cutoffs.len() - 1]);
            }
        }
        assert forall|i: int, j: int| 0 <= i < old_c.len() && 0 <= j < batch.len() implies old_c[i]
            != batch[j] by {
            assert(old_c.contains(old_c[i]));
            assert(batch.contains(batch[j]));
            assert(subscription_ids(old_c).contains(old_c[i].id));
        }
        vstd::seq_lib::lemma_no_dup_in_concat(old_c, batch);
        let now_c = old_c + batch;
        assert(consumed_subscriptions(l, cutoffs) == now_c);
        assert forall|e: SubscriptionEvent| #[trigger] now_c.contains(e) <==> ds.contains(e)
            && e.timestamp <= c by {
            if now_c.contains(e) {
                let k = choose|k: int| 0 <= k < now_c.len() && now_c[k] == e;
                if k < old_c.len() {
                    assert(old_c.contains(old_c[k]));
                } else {
                    assert(batch.contains(batch[k - old_c.len()]));
                }
            }
            if ds.contains(e) && e.timestamp <= c {
                if lp.used_subscriptions.contains(e.id) {
                    let k = choose|k: int| 0 <= k < old_c.len() && old_c[k].id == e.id;
                    assert(old_c.contains(old_c[k]));
                    let a = choose|a: int| 0 <= a < ds.len() && ds[a] == old_c[k];
                    let b = choose|b: int| 0 <= b < ds.len() && ds[b] == e;
                    if a < b {
                        assert(ds[a].id != ds[b].id);
                    } else if b < a {
                        assert(ds[b].id != ds[a].id);
                    }
                    assert(now_c[k] == old_c[k]);
                } else {
                    assert(batch.contains(e));
                    let k = choose|k: int| 0 <= k < batch.len() && batch[k] == e;
                    assert(now_c[old_c.len() + k] == e);
                }
            }
        }
    }
}

/// Consuming a fresh ledger at non-decreasing cutoffs hands out each event
/// exactly once: together the batches hold every event due by the last
/// cutoff, no other, and none twice, however the cutoffs split the range.
pub proof fn lemma_consumption_exactly_once(l: LedgerView, cutoffs: Seq<int>)
    requires
        l.used_donations == Set::<i32>::empty(),
        l.used_subscriptions == Set::<i32>::empty(),
        unique_donation_ids(l.donations),
        unique_subscription_ids(l.subscriptions),
        cutoffs.len() > 0,
        nondecreasing(cutoffs),
    ensures
        forall|e: DonationEvent| #[trigger]
            consumed_donations(l, cutoffs).contains(e) <==> l.donations.contains(e) && e.timestamp
                <= cutoffs.last(),
        consumed_donations(l, cutoffs).no_duplicates(),
        forall|e: SubscriptionEvent| #[trigger]
            consumed_subscriptions(l, cutoffs).contains(e) <==> l.subscriptions.contains(e)
                && e.timestamp <= cutoffs.last(),
        consumed_subscriptions(l, cutoffs).no_duplicates(),
{
    lemma_consumed_donations(l, cutoffs);
    lemma_consumed_subscriptions(l, cutoffs);
}

impl StoredDonations {
    pub fn new(donation_events: Vec<DonationEvent>, subscription_events: Vec<SubscriptionEvent>) -> (r: StoredDonations)
        requires
            events_ok(donation_events@, subscription_events@),
        ensures
            r@.donations == donation_events@,
            r@.subscriptions == subscription_events@,
            r@.used_donations == Set::<i32>::empty(),
            r@.used_subscriptions == Set::<i32>::empty(),
            r@.wf(),
    {
        StoredDonations {
            donation_events,
            subscription_events,
            used_donation_ids: HashSet::new(),
            used_subscription_ids: HashSet::new(),
        }
    }

    /// Monetary events due by `end` that no earlier step used.
    pub fn donations_up_to_time(&self, end: i64) -> (r: Vec<DonationEvent>)
        ensures
            r@ == self@.due_donations(end as int),
    {
        select_donations(&self.donation_events, &self.used_donation_ids, end)
    }

    /// Subscription events due by `end` that no earlier step used.
    pub fn subscriptions_up_to_time(&self, end: i64) -> (r: Vec<SubscriptionEvent>)
        ensures
            r@ == self@.due_subscriptions(end as int),
    {
        select_subscriptions(&self.subscription_events, &self.used_subscription_ids, end)
    }

    /// Hands out every event due by `cutoff` that was not handed out before,
    /// and marks it used.
    pub fn consume_up_to(&mut self, cutoff: i64) -> (r: (Vec<DonationEvent>, Vec<SubscriptionEvent>))
        requires
            old(self)@.wf(),
        ensures
            r.0@ == old(self)@.due_donations(cutoff as int),
            r.1@ == old(self)@.due_subscriptions(cutoff as int),
            final(self)@ == old(self)@.after(cutoff as int),
            final(self)@.wf(),
            events_ok(r.0@, r.1@),
    {
        let donations = self.donations_up_to_time(cutoff);
        let subscriptions = self.subscriptions_up_to_time(cutoff);
        mark_donations(&mut self.used_donation_ids, &donations);
        mark_subscriptions(&mut self.used_subscription_ids, &subscriptions);
        proof {
            lemma_filter_keeps_ok(
                old(self)@.donations,
                old(self)@.subscriptions,
                old(self)@.used_donations,
                old(self)@.used_subscriptions,
                cutoff as int,
            );
        }
        (donations, subscriptions)
    }

    /// Consumes everything due by `end` and tallies it by category.
    pub fn count_donations_up_to_time(&mut self, end: i64) -> (r: CountedDonations)
        requires
            old(self)@.wf(),
        ensures
            final(self)@ == old(self)@.after(end as int),
            final(self)@.wf(),
            r.weight() == donations_weight(old(self)@.due_donations(end as int))
                + subscriptions_weight(old(self)@.due_subscriptions(end as int)),
            round_points(r) == old(self)@.points_up_to(end as int),
            r.bounded_by(2 * MAX_EVENTS as int),
    {
        let (donations, subscriptions) = self.consume_up_to(end);
        tally(&donations, &subscriptions)
    }
}

pub open spec fn round_points(c: CountedDonations) -> int {
    crate::scoring::round_div(c.weight(), crate::scoring::POINT_SCALE as int)
}

} // verus!
