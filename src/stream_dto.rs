use vstd::prelude::*;

use vstd::string::StringExecFns;

verus! {

/// Decimal digits of a natural number, as characters.
pub open spec fn decimal_chars(n: nat) -> Seq<char>
    decreases n,
{
    if n < 10 {
        seq![digit_char(n)]
    } else {
        decimal_chars(n / 10).push(digit_char(n % 10))
    }
}

pub open spec fn digit_char(d: nat) -> char {
    if d == 0 { '0' } else if d == 1 { '1' } else if d == 2 { '2' } else if d == 3 { '3' } else if d
        == 4 { '4' } else if d == 5 { '5' } else if d == 6 { '6' } else if d == 7 { '7' } else if d
        == 8 { '8' } else { '9' }
}

/// An integer written with at least two digits (`{:02}`): a leading zero
/// before a single digit; a negative number keeps its sign and its digits.
pub open spec fn two_digit_field(n: int) -> Seq<char> {
    if n < 0 {
        seq!['-'] + decimal_chars((-n) as nat)
    } else if n < 10 {
        seq!['0', digit_char(n as nat)]
    } else {
        decimal_chars(n as nat)
    }
}

/// `hh:mm:ss` of a number of seconds; each part keeps the sign of the
/// whole, as integer division toward zero gives it.
pub open spec fn time_string(seconds: int) -> Seq<char> {
    let m = if seconds < 0 { -seconds } else { seconds };
    let sign = if seconds < 0 { -1int } else { 1int };
    two_digit_field(sign * (m / 3600)) + seq![':'] + two_digit_field(sign * ((m % 3600) / 60))
        + seq![':'] + two_digit_field(sign * (m % 60))
}

fn digit_str(d: u64) -> (r: &'static str)
    requires
        d < 10,
    ensures
        r@ == seq![digit_char(d as nat)],
{
    match d {
        0 => {
            proof { reveal_strlit("0"); }
            "0"
        },
        1 => {
            proof { reveal_strlit("1"); }
            "1"
        },
        2 => {
            proof { reveal_strlit("2"); }
            "2"
        },
        3 => {
            proof { reveal_strlit("3"); }
            "3"
        },
        4 => {
            proof { reveal_strlit("4"); }
            "4"
        },
        5 => {
            proof { reveal_strlit("5"); }
            "5"
        },
        6 => {
            proof { reveal_strlit("6"); }
            "6"
        },
        7 => {
            proof { reveal_strlit("7"); }
            "7"
        },
        8 => {
            proof { reveal_strlit("8"); }
            "8"
        },
        _ => {
            proof { reveal_strlit("9"); }
            "9"
        },
    }
}

pub(crate) fn append_decimal(out: &mut String, n: u64)
    ensures
        final(out)@ == old(out)@ + decimal_chars(n as nat),
    decreases n,
{
    if n < 10 {
        out.append(digit_str(n));
    } else {
        append_decimal(out, n / 10);
        out.append(digit_str(n % 10));
    }
}

/// Appends `sign * magnitude` as `format!("{:02}")` writes it.
fn append_two_digit(out: &mut String, negative: bool, magnitude: u64)
    ensures
        final(out)@ == old(out)@ + two_digit_field(
            if negative { -(magnitude as int) } else { magnitude as int },
        ),
{
    if negative && magnitude > 0 {
        proof { reveal_strlit("-"); }
        out.append("-");
        append_decimal(out, magnitude);
        proof {
            assert(out@ =~= old(out)@ + (seq!['-'] + decimal_chars(magnitude as nat)));
        }
    } else if magnitude < 10 {
        proof { reveal_strlit("0"); }
        out.append("0");
        out.append(digit_str(magnitude));
        proof {
            assert(out@ =~= old(out)@ + seq!['0', digit_char(magnitude as nat)]);
        }
    } else {
        append_decimal(out, magnitude);
    }
}

/// Takes some amount of seconds and returns `hh:mm:ss`.
pub fn seconds_to_time_string(seconds: i32) -> (r: String)
    ensures
        r@ == time_string(seconds as int),
{
    let negative = seconds < 0;
    let m: u64 = if negative {
        (0 - (seconds as i64)) as u64
    } else {
        seconds as u64
    };
    let mut out = String::new();
    append_two_digit(&mut out, negative, m / 3600);
    proof { reveal_strlit(":"); }
    out.append(":");
    append_two_digit(&mut out, negative, (m % 3600) / 60);
    out.append(":");
    append_two_digit(&mut out, negative, m % 60);
    proof {
        let sign = if negative { -1int } else { 1int };
        assert(two_digit_field(if negative { -((m / 3600) as int) } else { (m / 3600) as int })
            == two_digit_field(sign * (m / 3600)));
        assert(two_digit_field(
            if negative { -(((m % 3600) / 60) as int) } else { ((m % 3600) / 60) as int },
        ) == two_digit_field(sign * ((m % 3600) / 60)));
        assert(two_digit_field(if negative { -((m % 60) as int) } else { (m % 60) as int })
            == two_digit_field(sign * (m % 60)));
        assert(out@ =~= time_string(seconds as int));
    }
    out
}

/// A muted stretch of a stream's video as the stream listing shows it.
#[derive(Debug)]
pub struct MutedVodSegmentResponse {
    /// Formatted as `hh:mm:ss`.
    start: String,
    /// In seconds.
    duration: i32,
}

impl MutedVodSegmentResponse {
    /// The listing entry of a muted segment at `offset` seconds into the video.
    pub fn from_segment(offset: i32, duration: i32) -> (r: MutedVodSegmentResponse)
        ensures
            r.start_text() == time_string(offset as int),
            r.duration_spec() == duration,
    {
        MutedVodSegmentResponse { start: seconds_to_time_string(offset), duration }
    }

    pub closed spec fn start_text(&self) -> Seq<char> {
        self.start@
    }

    pub closed spec fn duration_spec(&self) -> i32 {
        self.duration
    }

    pub fn start(&self) -> (r: &str)
        ensures
            r@ == self.start_text(),
    {
        self.start.as_str()
    }

    pub fn duration(&self) -> (r: i32)
        ensures
            r == self.duration_spec(),
    {
        self.duration
    }
}

} // verus!
