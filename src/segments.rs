use vstd::prelude::*;

verus! {

/// Largest magnitude of an instant, in seconds from the Unix epoch: about
/// two hundred thousand years either way, inside the calendar's range.
pub const MAX_INSTANT: i64 = 7_000_000_000_000;

pub open spec fn instant_ok(t: int) -> bool {
    -MAX_INSTANT <= t <= MAX_INSTANT
}

/// One broadcast. An open segment (no end yet) ends at the evaluation time.
#[derive(Clone, Copy, Debug, PartialEq, Eq, Structural)]
pub struct BroadcastSegment {
    pub id: i32,
    pub start_timestamp: Option<i64>,
    pub end_timestamp: Option<i64>,
}

impl BroadcastSegment {
    pub open spec fn wf(self) -> bool {
        &&& (self.start_timestamp matches Some(s) ==> instant_ok(s as int))
        &&& (self.end_timestamp matches Some(e) ==> instant_ok(e as int))
    }

    pub open spec fn effective_end(self, now: int) -> int {
        match self.end_timestamp {
            Some(e) => e as int,
            None => now,
        }
    }

    /// A segment without a start contains no instant.
    pub open spec fn contains(self, now: int, t: int) -> bool {
        match self.start_timestamp {
            Some(s) => s <= t <= self.effective_end(now),
            None => false,
        }
    }
}

pub open spec fn segments_ok(segments: Seq<BroadcastSegment>) -> bool {
    forall|k: int| 0 <= k < segments.len() ==> (#[trigger] segments[k]).wf()
}

/// The 1-based position of the first segment from `i` on that contains `t`.
pub open spec fn segment_from(segments: Seq<BroadcastSegment>, now: int, t: int, i: int) -> Option<
    int,
>
    decreases segments.len() - i,
{
    if i < 0 || i >= segments.len() {
        None
    } else if segments[i].contains(now, t) {
        Some(i + 1)
    } else {
        segment_from(segments, now, t, i + 1)
    }
}

pub open spec fn segment_at(segments: Seq<BroadcastSegment>, now: int, t: int) -> Option<int> {
    segment_from(segments, now, t, 0)
}

/// Resolves `time` to the 1-based position of the first segment, in stored
/// order, whose interval holds it; `now` is the end of an open segment.
pub fn time_is_in_streams(streams: &Vec<BroadcastSegment>, time: i64, now: i64) -> (r: Option<
    usize,
>)
    ensures
        r matches Some(d) ==> segment_at(streams@, now as int, time as int) == Some(d as int),
        r is None ==> segment_at(streams@, now as int, time as int) is None,
        r matches Some(d) ==> 1 <= d <= streams.len() && streams@[d - 1].contains(
            now as int,
            time as int,
        ) && forall|k: int| 0 <= k < d - 1 ==> !(#[trigger] streams@[k]).contains(now as int, time as int),
        r is None ==> forall|k: int|
            0 <= k < streams.len() ==> !(#[trigger] streams@[k]).contains(now as int, time as int),
{
    let mut i: usize = 0;
    while i < streams.len()
        invariant
            i <= streams.len(),
            segment_at(streams@, now as int, time as int) == segment_from(
                streams@,
                now as int,
                time as int,
                i as int,
            ),
            forall|k: int| 0 <= k < i ==> !(#[trigger] streams@[k]).contains(now as int, time as int),
        decreases streams.len() - i,
    {
        let stream = streams[i];
        let inside = match stream.start_timestamp {
            Some(start_time) => {
                let end_time = match stream.end_timestamp {
                    Some(e) => e,
                    None => now,
                };
                time <= end_time && time >= start_time
            },
            None => false,
        };
        if inside {
            return Some(i + 1);
        }
        i = i + 1;
    }
    None
}

} // verus!
