use twitch_tracker::ledger::StoredDonations;
use twitch_tracker::report::{build_table, build_yatou_table, render_report, run_report, ReportLayout};
use twitch_tracker::scoring::{DonationEvent, EventType, SubscriptionEvent};
use twitch_tracker::segments::{time_is_in_streams, BroadcastSegment};
use twitch_tracker::simulator::{
    run_bounds, simulate, timer_is_paused, PauseInterval, Row, SimulationError, SubathonConfig,
};

const BASE: i64 = 1_760_000_000;
const HOUR: i64 = 3600;

fn two_segments() -> Vec<BroadcastSegment> {
    vec![
        BroadcastSegment { id: 1, start_timestamp: Some(BASE), end_timestamp: Some(BASE + 2 * HOUR) },
        BroadcastSegment {
            id: 2,
            start_timestamp: Some(BASE + 2 * HOUR),
            end_timestamp: Some(BASE + 4 * HOUR),
        },
    ]
}

fn config(step: i64) -> SubathonConfig {
    SubathonConfig {
        time_step: step,
        seconds_per_point: 6,
        bonus_trigger: BASE + 1_000_000,
        bonus_duration: 12 * HOUR,
        starting_offset: 0,
        pauses: vec![],
    }
}

fn donation(id: i32, timestamp: i64, event_type: EventType, amount: i64, tier: Option<i32>) -> DonationEvent {
    DonationEvent { id, timestamp, event_type, amount, subscription_tier: tier }
}

fn scenario_rows() -> Vec<Row> {
    let donations = vec![donation(1, BASE + HOUR, EventType::StreamlabsDonation, 10_000, None)];
    simulate(&two_segments(), donations, vec![], &config(1800), BASE + 100 * HOUR).unwrap()
}

#[test]
fn scenario_two_segments_one_donation() {
    let rows = scenario_rows();
    assert_eq!(rows.len(), 9);
    let timers: Vec<i128> = rows.iter().map(|r| r.current_timer).collect();
    assert_eq!(timers, vec![-1800, -3600, -4800, -6600, -8400, -10200, -12000, -13800, -15600]);
    let days: Vec<usize> = rows.iter().map(|r| r.stream_day).collect();
    assert_eq!(days, vec![1, 1, 1, 1, 1, 2, 2, 2, 2]);
    for row in &rows {
        if row.current_time == BASE + HOUR {
            assert_eq!(row.points_this_timeframe, 100);
            assert_eq!(row.time_added, 600);
        } else {
            assert_eq!(row.points_this_timeframe, 0);
            assert_eq!(row.time_added, 0);
        }
    }
}

#[test]
fn scenario_segment_matrix_report() {
    let rows = scenario_rows();
    let text = String::from_utf8(build_table(&rows)).unwrap();
    let expected = [
        "Segment Day\tHours Passed\tDay 1\tDay 2",
        "1\t0.00\t-0.50",
        "1\t0.50\t-1.00",
        "1\t1.00\t-1.33",
        "1\t1.50\t-1.83",
        "1\t2.00\t-2.33",
        "2\t2.50\t\t-2.83",
        "2\t3.00\t\t-3.33",
        "2\t3.50\t\t-3.83",
        "2\t4.00\t\t-4.33",
    ]
    .join("\n");
    assert_eq!(text, expected);
}

#[test]
fn flat_report_lines() {
    let rows = scenario_rows();
    let text = String::from_utf8(build_yatou_table(&rows)).unwrap();
    let lines: Vec<&str> = text.split('\n').collect();
    assert_eq!(lines[0], "DateTime\tTimer\tTimeAddedByDonations");
    assert_eq!(lines[1], "2025-10-09 08:53:20\t-0.50\t0");
    assert_eq!(lines[3], "2025-10-09 09:53:20\t-1.33\t600");
    assert_eq!(lines.len(), 10);
}

#[test]
fn render_report_matches_layouts() {
    let rows = scenario_rows();
    assert_eq!(render_report(&rows, ReportLayout::SegmentMatrix), build_table(&rows));
    assert_eq!(render_report(&rows, ReportLayout::Flat), build_yatou_table(&rows));
}

#[test]
fn empty_rows_give_header_only() {
    let text = String::from_utf8(build_table(&vec![])).unwrap();
    assert_eq!(text, "Segment Day\tHours Passed");
}

#[test]
fn rerun_gives_identical_report() {
    let events = || {
        vec![
            donation(1, BASE + HOUR, EventType::StreamlabsDonation, 10_000, None),
            donation(2, BASE + 2 * HOUR + 5, EventType::Bits, 25_000, None),
        ]
    };
    let subs = || vec![SubscriptionEvent { id: 7, timestamp: BASE + 3 * HOUR, subscription_tier: Some(2) }];
    let first = run_report(&two_segments(), events(), subs(), &config(600), BASE, ReportLayout::SegmentMatrix).unwrap();
    let second = run_report(&two_segments(), events(), subs(), &config(600), BASE, ReportLayout::SegmentMatrix).unwrap();
    assert_eq!(first, second);
    assert!(!first.is_empty());
}

#[test]
fn row_times_step_forward_and_skip_gaps() {
    let segments = vec![
        BroadcastSegment { id: 1, start_timestamp: Some(BASE), end_timestamp: Some(BASE + HOUR) },
        BroadcastSegment { id: 2, start_timestamp: Some(BASE + 3 * HOUR), end_timestamp: Some(BASE + 4 * HOUR) },
    ];
    let rows = simulate(&segments, vec![], vec![], &config(1800), BASE).unwrap();
    let times: Vec<i64> = rows.iter().map(|r| r.current_time - BASE).collect();
    assert_eq!(times, vec![0, 1800, 3600, 10800, 12600, 14400]);
    for pair in rows.windows(2) {
        assert!(pair[0].current_time < pair[1].current_time);
        assert_eq!((pair[1].current_time - pair[0].current_time) % 1800, 0);
    }
    // The gap leaves the timer alone: only attached steps run it down.
    assert_eq!(rows[3].current_timer, rows[2].current_timer - 1800);
}

#[test]
fn paused_steps_only_gain_credit() {
    let mut cfg = config(1800);
    cfg.pauses = vec![PauseInterval { start: BASE + HOUR, end: BASE + 2 * HOUR }];
    let donations = vec![donation(1, BASE + HOUR, EventType::StreamlabsDonation, 10_000, None)];
    let rows = simulate(&two_segments(), donations, vec![], &cfg, BASE).unwrap();
    // Paused at hours 1.0, 1.5 and 2.0: the timer moves by the credit alone.
    assert_eq!(rows[2].current_timer - rows[1].current_timer, 600);
    assert_eq!(rows[3].current_timer - rows[2].current_timer, 0);
    assert_eq!(rows[4].current_timer - rows[3].current_timer, 0);
    // Outside the pause: credit minus the step.
    assert_eq!(rows[5].current_timer - rows[4].current_timer, -1800);
}

#[test]
fn bonus_is_added_once() {
    let mut cfg = config(60);
    cfg.bonus_trigger = BASE + 90;
    cfg.bonus_duration = 12 * HOUR;
    let rows = simulate(&two_segments(), vec![], vec![], &cfg, BASE).unwrap();
    let mut jumps = 0;
    let mut previous: i128 = 0;
    for (k, row) in rows.iter().enumerate() {
        let delta = row.current_timer - previous;
        if delta != -60 {
            jumps += 1;
            assert_eq!(delta, -60 + 12 * 3600);
            assert_eq!(row.current_time, BASE + 120);
            assert_eq!(k, 2);
        }
        previous = row.current_timer;
    }
    assert_eq!(jumps, 1);
}

#[test]
fn run_bound_errors() {
    assert_eq!(run_bounds(&vec![], BASE), Err(SimulationError::NoSegments));
    let missing = vec![BroadcastSegment { id: 1, start_timestamp: None, end_timestamp: Some(BASE) }];
    assert_eq!(run_bounds(&missing, BASE), Err(SimulationError::MissingStartTime));
    let backwards = vec![BroadcastSegment { id: 1, start_timestamp: Some(BASE), end_timestamp: Some(BASE) }];
    assert_eq!(run_bounds(&backwards, BASE), Err(SimulationError::InvalidRunBounds));
    assert_eq!(
        simulate(&backwards, vec![], vec![], &config(60), BASE),
        Err(SimulationError::InvalidRunBounds)
    );
    let open = vec![BroadcastSegment { id: 1, start_timestamp: Some(BASE), end_timestamp: None }];
    assert_eq!(run_bounds(&open, BASE + 10), Ok((BASE, BASE + 10)));
}

#[test]
fn resolves_first_containing_segment() {
    let segments = vec![
        BroadcastSegment { id: 1, start_timestamp: None, end_timestamp: Some(BASE + 100) },
        BroadcastSegment { id: 2, start_timestamp: Some(BASE), end_timestamp: Some(BASE + 100) },
        BroadcastSegment { id: 3, start_timestamp: Some(BASE + 50), end_timestamp: None },
    ];
    assert_eq!(time_is_in_streams(&segments, BASE + 60, BASE + 1000), Some(2));
    assert_eq!(time_is_in_streams(&segments, BASE + 100, BASE + 1000), Some(2));
    assert_eq!(time_is_in_streams(&segments, BASE + 500, BASE + 1000), Some(3));
    assert_eq!(time_is_in_streams(&segments, BASE + 1001, BASE + 1000), None);
    assert_eq!(time_is_in_streams(&segments, BASE - 1, BASE + 1000), None);
}

#[test]
fn pause_membership_is_closed() {
    let pauses = vec![PauseInterval { start: 10, end: 20 }];
    assert!(timer_is_paused(&pauses, 10));
    assert!(timer_is_paused(&pauses, 20));
    assert!(!timer_is_paused(&pauses, 21));
    assert!(!timer_is_paused(&vec![], 15));
}

#[test]
fn ledger_hands_out_each_event_once() {
    let donations = vec![
        donation(1, 10, EventType::Bits, 100, None),
        donation(2, 20, EventType::Bits, 100, None),
        donation(3, 30, EventType::Bits, 100, None),
    ];
    let subs = vec![SubscriptionEvent { id: 9, timestamp: 25, subscription_tier: Some(1) }];
    let mut ledger = StoredDonations::new(donations, subs);
    let (d, s) = ledger.consume_up_to(15);
    assert_eq!(d.iter().map(|e| e.id).collect::<Vec<_>>(), vec![1]);
    assert!(s.is_empty());
    let (d, s) = ledger.consume_up_to(15);
    assert!(d.is_empty() && s.is_empty());
    let (d, s) = ledger.consume_up_to(30);
    assert_eq!(d.iter().map(|e| e.id).collect::<Vec<_>>(), vec![2, 3]);
    assert_eq!(s.iter().map(|e| e.id).collect::<Vec<_>>(), vec![9]);
    let (d, s) = ledger.consume_up_to(1000);
    assert!(d.is_empty() && s.is_empty());
}

#[test]
fn ledger_counts_due_events() {
    let donations = vec![donation(1, 10, EventType::StreamlabsDonation, 250, None)];
    let subs = vec![SubscriptionEvent { id: 4, timestamp: 5, subscription_tier: Some(3) }];
    let mut ledger = StoredDonations::new(donations, subs);
    let counted = ledger.count_donations_up_to_time(10);
    assert_eq!(counted.direct_donations, 250);
    assert_eq!(counted.tier_3_subs, 100);
    assert_eq!(counted.into_points(), 28);
    let again = ledger.count_donations_up_to_time(10);
    assert_eq!(again.into_points(), 0);
    assert_eq!(ledger.donations_up_to_time(100).len(), 0);
    assert_eq!(ledger.subscriptions_up_to_time(100).len(), 0);
}
