use vstd::prelude::*;

use crate::ledger::{events_ok, LedgerView, StoredDonations};
use crate::scoring::{DonationEvent, SubscriptionEvent, MAX_STEP_POINTS};
use crate::segments::{
    instant_ok, segment_at, segments_ok, time_is_in_streams, BroadcastSegment, MAX_INSTANT,
};

verus! {

/// Largest number of timer seconds that one point may be worth.
pub const MAX_SECONDS_PER_POINT: i64 = 1000;

/// A closed interval of instants during which the timer does not run down.
#[derive(Clone, Copy, Debug, PartialEq, Eq, Structural)]
pub struct PauseInterval {
    pub start: i64,
    pub end: i64,
}

/// The fixed inputs of a run. Durations and instants are in seconds.
#[derive(Debug)]
pub struct SubathonConfig {
    pub time_step: i64,
    pub seconds_per_point: i64,
    pub bonus_trigger: i64,
    pub bonus_duration: i64,
    pub starting_offset: i64,
    pub pauses: Vec<PauseInterval>,
}

impl SubathonConfig {
    pub open spec fn wf(&self) -> bool {
        &&& 1 <= self.time_step <= MAX_INSTANT
        &&& -MAX_SECONDS_PER_POINT <= self.seconds_per_point <= MAX_SECONDS_PER_POINT
        &&& -MAX_INSTANT <= self.bonus_duration <= MAX_INSTANT
        &&& -MAX_INSTANT <= self.starting_offset <= MAX_INSTANT
    }
}

/// One attached step of a run.
#[derive(Clone, Copy, Debug, PartialEq, Eq, Structural)]
pub struct Row {
    /// 1-based position of the segment that held the step's instant.
    pub stream_day: usize,
    /// Seconds from the run's start to the step's instant.
    pub elapsed: i64,
    /// Seconds credited by this step's points.
    pub time_added: i64,
    pub points_this_timeframe: i64,
    /// The timer after the step, in seconds.
    pub current_timer: i128,
    pub current_time: i64,
}

#[derive(Clone, Copy, Debug, PartialEq, Eq, Structural)]
pub enum SimulationError {
    NoSegments,
    MissingStartTime,
    /// The run would not start before it ends.
    InvalidRunBounds,
}

/// The state of a run between two steps.
pub struct SimState {
    pub current_time: int,
    pub timer: int,
    pub bonus_applied: bool,
    pub ledger: LedgerView,
}

pub open spec fn is_paused(pauses: Seq<PauseInterval>, t: int) -> bool {
    exists|k: int| 0 <= k < pauses.len() && (#[trigger] pauses[k]).start <= t <= pauses[k].end
}

/// The run's first and last instants: the first segment's start, and the
/// last segment's end (or `now` while it is open).
pub open spec fn run_bounds_of(segments: Seq<BroadcastSegment>, now: int) -> Result<
    (int, int),
    SimulationError,
> {
    if segments.len() == 0 {
        Err(SimulationError::NoSegments)
    } else if segments[0].start_timestamp is None {
        Err(SimulationError::MissingStartTime)
    } else {
        let start = segments[0].start_timestamp->0 as int;
        let end = segments.last().effective_end(now);
        if start < end {
            Ok((start, end))
        } else {
            Err(SimulationError::InvalidRunBounds)
        }
    }
}

pub open spec fn initial_state(cfg: SubathonConfig, ledger: LedgerView, start: int) -> SimState {
    SimState {
        current_time: start,
        timer: cfg.starting_offset as int,
        bonus_applied: false,
        ledger,
    }
}

/// One step of the walk: the next state, and the row it emits (none when
/// the instant lies in no segment).
pub open spec fn tick(
    segments: Seq<BroadcastSegment>,
    now: int,
    cfg: SubathonConfig,
    start: int,
    st: SimState,
) -> (SimState, Option<Row>) {
    let t = st.current_time;
    let next_time = t + cfg.time_step;
    match segment_at(segments, now, t) {
        None => (SimState { current_time: next_time, ..st }, None),
        Some(day) => {
            let run_down = if is_paused(cfg.pauses@, t) {
                st.timer
            } else {
                st.timer - cfg.time_step
            };
            let points = st.ledger.points_up_to(t);
            let credit = points * cfg.seconds_per_point;
            let bonus_now = !st.bonus_applied && t >= cfg.bonus_trigger;
            let timer = if bonus_now {
                run_down + credit + cfg.bonus_duration
            } else {
                run_down + credit
            };
            let row = Row {
                stream_day: day as usize,
                elapsed: (t - start) as i64,
                time_added: credit as i64,
                points_this_timeframe: points as i64,
                current_timer: timer as i128,
                current_time: t as i64,
            };
            (
                SimState {
                    current_time: next_time,
                    timer,
                    bonus_applied: st.bonus_applied || bonus_now,
                    ledger: st.ledger.after(t),
                },
                Some(row),
            )
        },
    }
}

pub open spec fn steps_left(end: int, t: int) -> int {
    if t > end {
        0
    } else {
        end - t + 1
    }
}

/// The rows that a run emits from state `st` on, until the instant passes
/// `end`.
pub open spec fn rows_from(
    segments: Seq<BroadcastSegment>,
    now: int,
    cfg: SubathonConfig,
    start: int,
    end: int,
    st: SimState,
) -> Seq<Row>
    decreases steps_left(end, st.current_time),
{
    if st.current_time > end || cfg.time_step < 1 {
        Seq::empty()
    } else {
        let (next, row) = tick(segments, now, cfg, start, st);
        match row {
            Some(r) => seq![r] + rows_from(segments, now, cfg, start, end, next),
            None => rows_from(segments, now, cfg, start, end, next),
        }
    }
}

/// The rows of a whole run over the given inputs.
pub open spec fn run_rows(
    segments: Seq<BroadcastSegment>,
    donations: Seq<DonationEvent>,
    subscriptions: Seq<SubscriptionEvent>,
    cfg: SubathonConfig,
    now: int,
    start: int,
    end: int,
) -> Seq<Row> {
    let ledger = LedgerView {
        donations,
        subscriptions,
        used_donations: Set::empty(),
        used_subscriptions: Set::empty(),
    };
    rows_from(segments, now, cfg, start, end, initial_state(cfg, ledger, start))
}

/// Whether row `k` is the one that receives the bonus: the first row whose
/// instant reaches the trigger.
pub open spec fn bonus_at(rows: Seq<Row>, k: int, cfg: SubathonConfig) -> bool {
    rows[k].current_time >= cfg.bonus_trigger && (k == 0 || rows[k - 1].current_time
        < cfg.bonus_trigger)
}

/// The timer before row `k`'s step: the starting offset before the first
/// row, else the previous row's timer (steps between rows leave it alone).
pub open spec fn timer_before(rows: Seq<Row>, k: int, cfg: SubathonConfig) -> int {
    if k == 0 {
        cfg.starting_offset as int
    } else {
        rows[k - 1].current_timer as int
    }
}

/// Row `k`'s timer: the previous timer, run down by one step unless the
/// instant is paused, plus the step's credit, plus the bonus on its row.
pub open spec fn timer_rule(rows: Seq<Row>, k: int, cfg: SubathonConfig) -> bool {
    rows[k].current_timer as int == timer_before(rows, k, cfg) - (if is_paused(
        cfg.pauses@,
        rows[k].current_time as int,
    ) {
        0
    } else {
        cfg.time_step as int
    }) + rows[k].time_added as int + (if bonus_at(rows, k, cfg) {
        cfg.bonus_duration as int
    } else {
        0
    })
}

/// What holds of every row of a run from `start` to `end`.
pub open spec fn rows_well_placed(
    rows: Seq<Row>,
    segments: Seq<BroadcastSegment>,
    cfg: SubathonConfig,
    now: int,
    start: int,
    end: int,
) -> bool {
    &&& forall|k: int|
        0 <= k < rows.len() ==> start <= (#[trigger] rows[k]).current_time <= end && (
        rows[k].current_time - start) % (cfg.time_step as int) == 0 && rows[k].elapsed
            == rows[k].current_time - start && segment_at(
            segments,
            now,
            rows[k].current_time as int,
        ) == Some(rows[k].stream_day as int)
    &&& forall|j: int, k: int|
        0 <= j < k < rows.len() ==> (#[trigger] rows[j]).current_time < (#[trigger] rows[k]).current_time
    &&& forall|k: int| 0 <= k < rows.len() ==> #[trigger] timer_rule(rows, k, cfg)
}

/// The bonus lands on at most one row, and on one whenever some row's
/// instant reaches the trigger.
pub open spec fn bonus_once(rows: Seq<Row>, cfg: SubathonConfig) -> bool {
    &&& forall|j: int, k: int|
        0 <= j < rows.len() && 0 <= k < rows.len() && #[trigger] bonus_at(rows, j, cfg)
            && #[trigger] bonus_at(rows, k, cfg) ==> j == k
    &&& (exists|k: int| 0 <= k < rows.len() && (#[trigger] rows[k]).current_time >= cfg.bonus_trigger)
        ==> exists|k: int| 0 <= k < rows.len() && #[trigger] bonus_at(rows, k, cfg)
}

proof fn lemma_first_reaching(rows: Seq<Row>, cfg: SubathonConfig, k: int)
    requires
        0 <= k < rows.len(),
        rows[k].current_time >= cfg.bonus_trigger,
    ensures
        exists|j: int| 0 <= j <= k && #[trigger] bonus_at(rows, j, cfg),
    decreases k,
{
    if k == 0 || rows[k - 1].current_time < cfg.bonus_trigger {
        assert(bonus_at(rows, k, cfg));
    } else {
        lemma_first_reaching(rows, cfg, k - 1);
    }
}

proof fn lemma_bonus_once(rows: Seq<Row>, cfg: SubathonConfig)
    requires
        forall|j: int, k: int|
            0 <= j < k < rows.len() ==> (#[trigger] rows[j]).current_time < (#[trigger] rows[k]).current_time,
    ensures
        bonus_once(rows, cfg),
{
    assert forall|j: int, k: int|
        0 <= j < rows.len() && 0 <= k < rows.len() && #[trigger] bonus_at(rows, j, cfg)
            && #[trigger] bonus_at(rows, k, cfg) implies j == k by {
        if j < k {
            if j < k - 1 {
                assert(rows[j].current_time < rows[k - 1].current_time);
            }
        } else if k < j {
            if k < j - 1 {
                assert(rows[k].current_time < rows[j - 1].current_time);
            }
        }
    }
    if exists|k: int| 0 <= k < rows.len() && (#[trigger] rows[k]).current_time >= cfg.bonus_trigger {
        let k = choose|k: int| 0 <= k < rows.len() && (#[trigger] rows[k]).current_time >= cfg.bonus_trigger;
        lemma_first_reaching(rows, cfg, k);
    }
}

/// Whether `time` lies inside one of the pause intervals.
pub fn timer_is_paused(pauses: &Vec<PauseInterval>, time: i64) -> (r: bool)
    ensures
        r == is_paused(pauses@, time as int),
{
    let mut i: usize = 0;
    while i < pauses.len()
        invariant
            i <= pauses.len(),
            forall|k: int| 0 <= k < i ==> !((#[trigger] pauses@[k]).start <= time <= pauses@[k].end),
        decreases pauses.len() - i,
    {
        if time >= pauses[i].start && time <= pauses[i].end {
            return true;
        }
        i = i + 1;
    }
    false
}

/// The run's bounds, or why there is no run.
pub fn run_bounds(streams: &Vec<BroadcastSegment>, now: i64) -> (r: Result<(i64, i64), SimulationError>)
    ensures
        r matches Ok((s, e)) ==> run_bounds_of(streams@, now as int) == Ok::<(int, int), SimulationError>((s as int, e as int)),
        r matches Err(err) ==> run_bounds_of(streams@, now as int) == Err::<(int, int), SimulationError>(err),
{
    if streams.len() == 0 {
        return Err(SimulationError::NoSegments);
    }
    let start_time = match streams[0].start_timestamp {
        Some(s) => s,
        None => {
            return Err(SimulationError::MissingStartTime);
        },
    };
    let end_time = match streams[streams.len() - 1].end_timestamp {
        Some(e) => e,
        None => now,
    };
    if start_time < end_time {
        Ok((start_time, end_time))
    } else {
        Err(SimulationError::InvalidRunBounds)
    }
}

pub open spec fn abs(x: int) -> int {
    if x >= 0 {
        x
    } else {
        -x
    }
}

proof fn lemma_next_multiple(x: int, m: int)
    requires
        m > 0,
        x % m == 0,
    ensures
        (x + m) % m == 0,
{
    vstd::arithmetic::div_mod::lemma_fundamental_div_mod(x, m);
    vstd::arithmetic::div_mod::lemma_mod_multiples_basic(x / m + 1, m);
    assert((x / m + 1) * m == x + m) by (nonlinear_arith)
        requires
            x == m * (x / m),
    ;
}

/// Factor bounding how far one step, of any length, moves the timer.
pub open spec fn drift_per_second() -> int {
    MAX_STEP_POINTS as int * MAX_SECONDS_PER_POINT as int + 1
}

proof fn lemma_step_drift(step: int, credit: int)
    requires
        1 <= step,
        -(MAX_STEP_POINTS as int * MAX_SECONDS_PER_POINT as int) <= credit <= MAX_STEP_POINTS as int
            * MAX_SECONDS_PER_POINT as int,
    ensures
        step + credit <= step * drift_per_second(),
        -(step * drift_per_second()) <= -step + credit,
        -(step * drift_per_second()) <= credit,
        credit <= step * drift_per_second(),
{
    let c = MAX_STEP_POINTS as int * MAX_SECONDS_PER_POINT as int;
    assert(step * drift_per_second() == step * c + step) by (nonlinear_arith)
        requires
            drift_per_second() == c + 1,
    ;
    assert(step * c >= c) by (nonlinear_arith)
        requires
            step >= 1,
            c >= 0,
    ;
}

proof fn lemma_total_drift(span: int)
    requires
        0 <= span <= 3 * MAX_INSTANT,
    ensures
        0 <= span * drift_per_second() <= 200_000_000_000_000_000_000_000_000_000_000,
{
    let d = drift_per_second();
    assert(d == 8_300_000_000_000_000_001);
    assert(0 <= span * d <= 200_000_000_000_000_000_000_000_000_000_000) by (nonlinear_arith)
        requires
            0 <= span <= 21_000_000_000_000,
            d == 8_300_000_000_000_000_001,
    ;
}

proof fn lemma_credit_bound(points: int, spp: int)
    requires
        -(MAX_STEP_POINTS as int) <= points <= MAX_STEP_POINTS as int,
        -(MAX_SECONDS_PER_POINT as int) <= spp <= MAX_SECONDS_PER_POINT as int,
    ensures
        -(MAX_STEP_POINTS as int * MAX_SECONDS_PER_POINT as int) <= points * spp
            <= MAX_STEP_POINTS as int * MAX_SECONDS_PER_POINT as int,
{
    let p = MAX_STEP_POINTS as int;
    let m = MAX_SECONDS_PER_POINT as int;
    assert(-(p * m) <= points * spp <= p * m) by (nonlinear_arith)
        requires
            -p <= points <= p,
            -m <= spp <= m,
            p >= 0,
            m >= 0,
    ;
}

/// Walks the run from its first to its last instant in fixed steps and
/// returns one row per step whose instant lies in a segment.
pub fn simulate(
    streams: &Vec<BroadcastSegment>,
    donation_events: Vec<DonationEvent>,
    subscription_events: Vec<SubscriptionEvent>,
    config: &SubathonConfig,
    now: i64,
) -> (r: Result<Vec<Row>, SimulationError>)
    requires
        segments_ok(streams@),
        instant_ok(now as int),
        config.wf(),
        events_ok(donation_events@, subscription_events@),
    ensures
        r matches Err(err) ==> run_bounds_of(streams@, now as int) == Err::<(int, int), SimulationError>(err),
        r matches Ok(rows) ==> run_bounds_of(streams@, now as int) matches Ok((s, e)) && rows@
            == run_rows(
            streams@,
            donation_events@,
            subscription_events@,
            *config,
            now as int,
            s,
            e,
        ) && rows_well_placed(rows@, streams@, *config, now as int, s, e) && bonus_once(
            rows@,
            *config,
        ),
{
    let (start_time, end_time) = match run_bounds(streams, now) {
        Ok(bounds) => bounds,
        Err(err) => {
            return Err(err);
        },
    };
    proof {
        assert(streams@[0].wf());
        assert(streams@[streams.len() - 1].wf());
    }
    let mut stored_donations = StoredDonations::new(donation_events, subscription_events);
    let ghost init = initial_state(*config, stored_donations@, start_time as int);
    let mut current_time: i64 = start_time;
    let mut current_timer: i128 = config.starting_offset as i128;
    let mut bonus_applied = false;
    let mut rows: Vec<Row> = Vec::new();
    let ghost bonus_abs: int = abs(config.bonus_duration as int);
    let ghost offset_abs: int = abs(config.starting_offset as int);
    proof {
        vstd::arithmetic::div_mod::lemma_mod_multiples_basic(0, config.time_step as int);
        assert((start_time - start_time) % (config.time_step as int) == 0);
    }
    while current_time <= end_time
        invariant
            config.wf(),
            instant_ok(start_time as int),
            instant_ok(end_time as int),
            instant_ok(now as int),
            start_time < end_time,
            start_time <= current_time <= end_time + config.time_step,
            stored_donations@.wf(),
            rows@ + rows_from(
                streams@,
                now as int,
                *config,
                start_time as int,
                end_time as int,
                SimState {
                    current_time: current_time as int,
                    timer: current_timer as int,
                    bonus_applied,
                    ledger: stored_donations@,
                },
            ) == rows_from(streams@, now as int, *config, start_time as int, end_time as int, init),
            -(offset_abs + (if bonus_applied { bonus_abs } else { 0 }) + (current_time - start_time)
                * drift_per_second()) <= current_timer <= offset_abs + (if bonus_applied {
                bonus_abs
            } else {
                0
            }) + (current_time - start_time) * drift_per_second(),
            bonus_abs == abs(config.bonus_duration as int),
            offset_abs == abs(config.starting_offset as int),
            (current_time - start_time) % (config.time_step as int) == 0,
            rows_well_placed(rows@, streams@, *config, now as int, start_time as int, end_time as int),
            rows.len() > 0 ==> rows@.last().current_time < current_time,
            current_timer as int == timer_before(rows@, rows.len() as int, *config),
            bonus_applied <==> (rows.len() > 0 && rows@.last().current_time >= config.bonus_trigger),
        decreases steps_left(end_time as int, current_time as int),
    {
        let ghost st = SimState {
            current_time: current_time as int,
            timer: current_timer as int,
            bonus_applied,
            ledger: stored_donations@,
        };
        let ghost span = current_time - start_time;
        let step = config.time_step;
        proof {
            lemma_total_drift(span);
            lemma_total_drift(span + step);
            assert((span + step) * drift_per_second() == span * drift_per_second() + step
                * drift_per_second()) by (nonlinear_arith);
            assert(step * drift_per_second() >= 0) by (nonlinear_arith)
                requires
                    step >= 1,
                    drift_per_second() >= 0,
            ;
        }
        let stream = match time_is_in_streams(streams, current_time, now) {
            Some(day) => day,
            None => {
                proof {
                    lemma_next_multiple(current_time - start_time, step as int);
                }
                current_time = current_time + step;
                assert((current_time - start_time) * drift_per_second() == span
                    * drift_per_second() + step * drift_per_second());
                continue;
            },
        };
        let timer_paused = timer_is_paused(&config.pauses, current_time);
        let ghost timer_at_step = current_timer as int;
        if !timer_paused {
            current_timer = current_timer - step as i128;
        }
        let counted_donations = stored_donations.count_donations_up_to_time(current_time);
        let points = counted_donations.into_points();
        proof {
            lemma_credit_bound(points as int, config.seconds_per_point as int);
        }
        let time_added = points * config.seconds_per_point;
        proof {
            lemma_step_drift(step as int, time_added as int);
        }
        current_timer = current_timer + time_added as i128;
        proof {
            let delta = current_timer - timer_at_step;
            assert(-(step * drift_per_second()) <= delta <= step * drift_per_second());
        }
        let ghost bonus_before = bonus_applied;
        let ghost timer_mid = current_timer as int;
        if !bonus_applied && current_time >= config.bonus_trigger {
            current_timer = current_timer + config.bonus_duration as i128;
            bonus_applied = true;
        }
        let row = Row {
            stream_day: stream,
            elapsed: current_time - start_time,
            time_added,
            points_this_timeframe: points,
            current_timer,
            current_time,
        };
        proof {
            let bound_before = offset_abs + (if bonus_before { bonus_abs } else { 0 });
            let bound_after = offset_abs + (if bonus_applied { bonus_abs } else { 0 });
            assert(-(bound_after - bound_before) <= current_timer - timer_mid <= bound_after
                - bound_before);
            let (next, emitted) = tick(streams@, now as int, *config, start_time as int, st);
            assert(emitted == Some(row));
            assert(next.timer == current_timer as int);
        }
        let ghost old_rows = rows@;
        rows.push(row);
        proof {
            lemma_next_multiple(current_time - start_time, step as int);
            let n = old_rows.len() as int;
            assert(rows@[n] == row);
            assert forall|k: int| 0 <= k < n implies #[trigger] timer_rule(rows@, k, *config) by {
                assert(rows@[k] == old_rows[k]);
                assert(timer_rule(old_rows, k, *config));
                if k > 0 {
                    assert(rows@[k - 1] == old_rows[k - 1]);
                }
            }
            if n > 0 {
                assert(rows@[n - 1] == old_rows[n - 1]);
            }
            assert(timer_rule(rows@, n, *config));
            assert forall|k: int| 0 <= k < rows.len() implies start_time <= (#[trigger] rows@[k]).current_time
                <= end_time && (rows@[k].current_time - start_time) % (config.time_step as int) == 0
                && rows@[k].elapsed == rows@[k].current_time - start_time && segment_at(
                streams@,
                now as int,
                rows@[k].current_time as int,
            ) == Some(rows@[k].stream_day as int) by {
                if k < n {
                    assert(rows@[k] == old_rows[k]);
                }
            }
            assert forall|j: int, k: int|
                0 <= j < k < rows.len() implies (#[trigger] rows@[j]).current_time < (
                #[trigger] rows@[k]).current_time by {
                assert(rows@[j] == old_rows[j]);
                if k < n {
                    assert(rows@[k] == old_rows[k]);
                } else if j < n - 1 {
                    assert(old_rows[j].current_time < old_rows[n - 1].current_time);
                }
            }
        }
        current_time = current_time + step;
        proof {
            assert((current_time - start_time) * drift_per_second() == span * drift_per_second()
                + step * drift_per_second());
            assert(rows@ =~= rows@.drop_last() + seq![row]);
        }
    }
    proof {
        lemma_bonus_once(rows@, *config);
    }
    Ok(rows)
}

} // verus!
