use vstd::prelude::*;

use crate::scoring::round_div;
use crate::segments::instant_ok;
use crate::ledger::events_ok;
use crate::scoring::{DonationEvent, SubscriptionEvent};
use crate::segments::{segments_ok, BroadcastSegment};
use crate::simulator::{
    abs, run_bounds_of, run_rows, simulate, Row, SimulationError, SubathonConfig,
};
use crate::time::{instant_text, push_instant_text};
use vstd::string::StringSliceAdditionalSpecFns;

verus! {

pub const TAB: u8 = 9;
pub const NEWLINE: u8 = 10;
pub const MINUS: u8 = 45;
pub const DOT: u8 = 46;
pub const ZERO: u8 = 48;

/// The two text layouts of a run's rows.
#[derive(Clone, Copy, Debug, PartialEq, Eq, Structural)]
pub enum ReportLayout {
    /// One column per segment; each row's timer sits in its segment's column.
    SegmentMatrix,
    /// One line per row: date and time, timer, seconds credited.
    Flat,
}

/// Decimal digits of a natural number.
pub open spec fn digits(n: nat) -> Seq<u8>
    decreases n,
{
    if n < 10 {
        seq![(ZERO + n) as u8]
    } else {
        digits(n / 10).push((ZERO + n % 10) as u8)
    }
}

/// Decimal text of an integer, with a leading `-` when negative.
pub open spec fn signed_text(n: int) -> Seq<u8> {
    if n < 0 {
        seq![MINUS] + digits((-n) as nat)
    } else {
        digits(n as nat)
    }
}

/// Hours with two decimals of a number of seconds: the hundredths of an
/// hour (one per 36 seconds) are rounded half away from zero.
pub open spec fn hours_text(secs: int) -> Seq<u8> {
    let c = round_div(secs, 36);
    let a = abs(c);
    (if c < 0 {
        seq![MINUS]
    } else {
        Seq::empty()
    }) + digits((a / 100) as nat) + seq![DOT, (ZERO + (a % 100) / 10) as u8, (ZERO + a % 10) as u8]
}

pub open spec fn tabs(n: nat) -> Seq<u8> {
    Seq::new(n, |i: int| TAB)
}

pub open spec fn max_day(rows: Seq<Row>) -> nat
    decreases rows.len(),
{
    if rows.len() == 0 {
        0
    } else {
        let m = max_day(rows.drop_last());
        if rows.last().stream_day as nat > m {
            rows.last().stream_day as nat
        } else {
            m
        }
    }
}

pub open spec fn matrix_header(n: nat) -> Seq<u8>
    decreases n,
{
    if n == 0 {
        "Segment Day\tHours Passed".spec_bytes()
    } else {
        matrix_header((n - 1) as nat) + "\tDay ".spec_bytes() + digits(n)
    }
}

pub open spec fn flat_header() -> Seq<u8> {
    "DateTime\tTimer\tTimeAddedByDonations".spec_bytes()
}

pub open spec fn matrix_line(r: Row) -> Seq<u8> {
    digits(r.stream_day as nat) + seq![TAB] + hours_text(r.elapsed as int) + tabs(
        r.stream_day as nat,
    ) + hours_text(r.current_timer as int)
}

pub open spec fn flat_line(r: Row) -> Seq<u8> {
    instant_text(r.current_time as int) + seq![TAB] + hours_text(r.current_timer as int) + seq![TAB]
        + signed_text(r.time_added as int)
}

pub open spec fn line_of(layout: ReportLayout, r: Row) -> Seq<u8> {
    match layout {
        ReportLayout::SegmentMatrix => matrix_line(r),
        ReportLayout::Flat => flat_line(r),
    }
}

/// Each row's line, each preceded by a newline.
pub open spec fn lines(layout: ReportLayout, rows: Seq<Row>) -> Seq<u8>
    decreases rows.len(),
{
    if rows.len() == 0 {
        Seq::empty()
    } else {
        lines(layout, rows.drop_last()) + seq![NEWLINE] + line_of(layout, rows.last())
    }
}

pub open spec fn header_of(layout: ReportLayout, rows: Seq<Row>) -> Seq<u8> {
    match layout {
        ReportLayout::SegmentMatrix => matrix_header(max_day(rows)),
        ReportLayout::Flat => flat_header(),
    }
}

/// The whole report: the header, then one line per row.
pub open spec fn report_text(layout: ReportLayout, rows: Seq<Row>) -> Seq<u8> {
    header_of(layout, rows) + lines(layout, rows)
}

pub open spec fn rows_printable(rows: Seq<Row>) -> bool {
    forall|k: int| 0 <= k < rows.len() ==> instant_ok((#[trigger] rows[k]).current_time as int)
}

fn push_str(out: &mut Vec<u8>, s: &str)
    ensures
        final(out)@ == old(out)@ + s.spec_bytes(),
{
    let b = s.as_bytes();
    let mut i: usize = 0;
    while i < b.len()
        invariant
            i <= b@.len(),
            b@ == s.spec_bytes(),
            out@ == old(out)@ + b@.subrange(0, i as int),
        decreases b.len() - i,
    {
        out.push(b[i]);
        assert(b@.subrange(0, i + 1) =~= b@.subrange(0, i as int).push(b@[i as int]));
        i = i + 1;
    }
    assert(b@.subrange(0, b@.len() as int) =~= b@);
}

fn push_digits(out: &mut Vec<u8>, n: u128)
    ensures
        final(out)@ == old(out)@ + digits(n as nat),
    decreases n,
{
    if n < 10 {
        out.push((ZERO as u128 + n) as u8);
        assert(digits(n as nat) == seq![(ZERO + n) as u8]);
    } else {
        push_digits(out, n / 10);
        out.push((ZERO as u128 + n % 10) as u8);
    }
}

fn push_signed(out: &mut Vec<u8>, n: i64)
    ensures
        final(out)@ == old(out)@ + signed_text(n as int),
{
    if n < 0 {
        out.push(MINUS);
        let m: u128 = (0 - (n as i128)) as u128;
        push_digits(out, m);
    } else {
        push_digits(out, n as u128);
    }
}

fn push_tabs(out: &mut Vec<u8>, n: usize)
    ensures
        final(out)@ == old(out)@ + tabs(n as nat),
{
    let mut i: usize = 0;
    while i < n
        invariant
            i <= n,
            out@ == old(out)@ + tabs(i as nat),
        decreases n - i,
    {
        out.push(TAB);
        assert(tabs((i + 1) as nat) =~= tabs(i as nat).push(TAB));
        i = i + 1;
    }
}

/// Appends `secs` as hours with two decimals.
pub fn push_hours(out: &mut Vec<u8>, secs: i128)
    ensures
        final(out)@ == old(out)@ + hours_text(secs as int),
{
    let m: u128 = if secs >= 0 {
        secs as u128
    } else {
        (-(secs + 1)) as u128 + 1
    };
    let a: u128 = m / 36 + if m % 36 >= 18 {
        1
    } else {
        0
    };
    let ghost c: int = round_div(secs as int, 36);
    assert(a == abs(c));
    if secs < 0 && a > 0 {
        out.push(MINUS);
    }
    push_digits(out, a / 100);
    out.push(DOT);
    out.push((ZERO as u128 + (a % 100) / 10) as u8);
    out.push((ZERO as u128 + a % 10) as u8);
    proof {
        let sign: Seq<u8> = if c < 0 {
            seq![MINUS]
        } else {
            Seq::empty()
        };
        assert(out@ =~= old(out)@ + (sign + digits((a / 100) as nat) + seq![
            DOT,
            (ZERO + (a % 100) / 10) as u8,
            (ZERO + a % 10) as u8,
        ]));
    }
}

fn push_line(out: &mut Vec<u8>, layout: ReportLayout, row: &Row)
    requires
        layout == ReportLayout::Flat ==> instant_ok(row.current_time as int),
    ensures
        final(out)@ == old(out)@ + line_of(layout, *row),
{
    match layout {
        ReportLayout::SegmentMatrix => {
            push_digits(out, row.stream_day as u128);
            out.push(TAB);
            push_hours(out, row.elapsed as i128);
            push_tabs(out, row.stream_day);
            push_hours(out, row.current_timer);
        },
        ReportLayout::Flat => {
            push_instant_text(out, row.current_time);
            out.push(TAB);
            push_hours(out, row.current_timer);
            out.push(TAB);
            push_signed(out, row.time_added);
        },
    }
}

/// The highest segment position among the rows, 0 when there are none.
pub fn max_stream_day(rows: &Vec<Row>) -> (r: usize)
    ensures
        r == max_day(rows@),
{
    let mut m: usize = 0;
    let mut i: usize = 0;
    while i < rows.len()
        invariant
            i <= rows.len(),
            m == max_day(rows@.subrange(0, i as int)),
        decreases rows.len() - i,
    {
        assert(rows@.subrange(0, i + 1).drop_last() =~= rows@.subrange(0, i as int));
        if rows[i].stream_day > m {
            m = rows[i].stream_day;
        }
        i = i + 1;
    }
    assert(rows@.subrange(0, rows.len() as int) =~= rows@);
    m
}

fn push_matrix_header(out: &mut Vec<u8>, n: usize)
    ensures
        final(out)@ == old(out)@ + matrix_header(n as nat),
{
    push_str(out, "Segment Day\tHours Passed");
    let mut d: usize = 0;
    while d < n
        invariant
            d <= n,
            out@ == old(out)@ + matrix_header(d as nat),
        decreases n - d,
    {
        d = d + 1;
        push_str(out, "\tDay ");
        push_digits(out, d as u128);
        assert(out@ =~= old(out)@ + matrix_header(d as nat));
    }
}

fn push_lines(out: &mut Vec<u8>, layout: ReportLayout, rows: &Vec<Row>)
    requires
        layout == ReportLayout::Flat ==> rows_printable(rows@),
    ensures
        final(out)@ == old(out)@ + lines(layout, rows@),
{
    let mut i: usize = 0;
    while i < rows.len()
        invariant
            i <= rows.len(),
            layout == ReportLayout::Flat ==> rows_printable(rows@),
            out@ == old(out)@ + lines(layout, rows@.subrange(0, i as int)),
        decreases rows.len() - i,
    {
        let ghost before = out@;
        out.push(NEWLINE);
        push_line(out, layout, &rows[i]);
        assert(rows@.subrange(0, i + 1).drop_last() =~= rows@.subrange(0, i as int));
        assert(out@ =~= old(out)@ + lines(layout, rows@.subrange(0, i + 1)));
        i = i + 1;
    }
    assert(rows@.subrange(0, rows.len() as int) =~= rows@);
}

/// The segment-matrix report of a run's rows.
pub fn build_table(rows: &Vec<Row>) -> (r: Vec<u8>)
    ensures
        r@ == report_text(ReportLayout::SegmentMatrix, rows@),
{
    let mut out: Vec<u8> = Vec::new();
    let max_row = max_stream_day(rows);
    push_matrix_header(&mut out, max_row);
    push_lines(&mut out, ReportLayout::SegmentMatrix, rows);
    assert(out@ =~= report_text(ReportLayout::SegmentMatrix, rows@));
    out
}

/// The flat report of a run's rows.
pub fn build_yatou_table(rows: &Vec<Row>) -> (r: Vec<u8>)
    requires
        rows_printable(rows@),
    ensures
        r@ == report_text(ReportLayout::Flat, rows@),
{
    let mut out: Vec<u8> = Vec::new();
    push_str(&mut out, "DateTime\tTimer\tTimeAddedByDonations");
    push_lines(&mut out, ReportLayout::Flat, rows);
    assert(out@ =~= report_text(ReportLayout::Flat, rows@));
    out
}

/// The report of a run's rows in the chosen layout.
pub fn render_report(rows: &Vec<Row>, layout: ReportLayout) -> (r: Vec<u8>)
    requires
        layout == ReportLayout::Flat ==> rows_printable(rows@),
    ensures
        r@ == report_text(layout, rows@),
{
    match layout {
        ReportLayout::SegmentMatrix => build_table(rows),
        ReportLayout::Flat => build_yatou_table(rows),
    }
}

/// Runs the simulation over the inputs and renders its rows. The bytes
/// depend on the inputs alone, so a rerun on the same inputs gives the same
/// report.
pub fn run_report(
    streams: &Vec<BroadcastSegment>,
    donation_events: Vec<DonationEvent>,
    subscription_events: Vec<SubscriptionEvent>,
    config: &SubathonConfig,
    now: i64,
    layout: ReportLayout,
) -> (r: Result<Vec<u8>, SimulationError>)
    requires
        segments_ok(streams@),
        instant_ok(now as int),
        config.wf(),
        events_ok(donation_events@, subscription_events@),
    ensures
        r matches Err(err) ==> run_bounds_of(streams@, now as int) == Err::<(int, int), SimulationError>(err),
        r matches Ok(bytes) ==> run_bounds_of(streams@, now as int) matches Ok((s, e)) && bytes@
            == report_text(
            layout,
            run_rows(streams@, donation_events@, subscription_events@, *config, now as int, s, e),
        ),
        run_bounds_of(streams@, now as int) is Ok ==> r is Ok,
{
    let rows = match simulate(streams, donation_events, subscription_events, config, now) {
        Ok(rows) => rows,
        Err(err) => {
            return Err(err);
        },
    };
    proof {
        let (s, e) = run_bounds_of(streams@, now as int)->Ok_0;
        assert(streams@[0].wf());
        assert(streams@[streams.len() - 1].wf());
        assert forall|k: int| 0 <= k < rows@.len() implies instant_ok(
            (#[trigger] rows@[k]).current_time as int,
        ) by {
            assert(s <= rows@[k].current_time <= e);
        }
    }
    Ok(render_report(&rows, layout))
}

/// Two runs over the same segments, events, configuration, evaluation time
/// and layout give byte-identical reports.
pub proof fn lemma_rerun_same_report(
    streams: Seq<BroadcastSegment>,
    donations: Seq<DonationEvent>,
    subscriptions: Seq<SubscriptionEvent>,
    config: SubathonConfig,
    now: int,
    layout: ReportLayout,
    first: Seq<u8>,
    second: Seq<u8>,
)
    requires
        run_bounds_of(streams, now) matches Ok((s, e)) && first == report_text(
            layout,
            run_rows(streams, donations, subscriptions, config, now, s, e),
        ) && second == report_text(
            layout,
            run_rows(streams, donations, subscriptions, config, now, s, e),
        ),
    ensures
        first == second,
{
}

} // verus!
