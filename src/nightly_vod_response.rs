use vstd::prelude::*;

verus! {

/// A muted stretch of a video; values are in seconds.
#[derive(Clone, Copy, Debug, PartialEq, Eq, Structural)]
pub struct MutedStreamSegment {
    duration: i32,
    offset: i32,
}

pub struct MutedStreamSegmentView {
    pub duration: i32,
    pub offset: i32,
}

impl View for MutedStreamSegment {
    type V = MutedStreamSegmentView;

    closed spec fn view(&self) -> MutedStreamSegmentView {
        MutedStreamSegmentView { duration: self.duration, offset: self.offset }
    }
}

impl MutedStreamSegment {
    pub fn new(duration: i32, offset: i32) -> (r: MutedStreamSegment)
        ensures
            r@.duration == duration,
            r@.offset == offset,
    {
        MutedStreamSegment { duration, offset }
    }

    /// Returns the duration in seconds of the muted segment.
    pub fn duration(&self) -> (r: i32)
        ensures
            r == self@.duration,
    {
        self.duration
    }

    /// Returns the offset in seconds the muted segment was.
    pub fn offset(&self) -> (r: i32)
        ensures
            r == self@.offset,
    {
        self.offset
    }
}

/// One video of the platform's video listing, as the nightly job reads it:
/// very old videos have no stream, and the muted list may be absent.
#[derive(Debug)]
pub struct TwitchVodData {
    id: String,
    stream_id: Option<String>,
    user_id: String,
    title: String,
    muted_segments: Option<Vec<MutedStreamSegment>>,
}

pub struct TwitchVodDataView {
    pub id: Seq<char>,
    pub stream_id: Option<Seq<char>>,
    pub user_id: Seq<char>,
    pub title: Seq<char>,
    /// Empty where the listing gave no muted segments.
    pub muted_segments: Seq<MutedStreamSegment>,
}

impl View for TwitchVodData {
    type V = TwitchVodDataView;

    closed spec fn view(&self) -> TwitchVodDataView {
        TwitchVodDataView {
            id: self.id@,
            stream_id: match self.stream_id {
                Some(s) => Some(s@),
                None => None,
            },
            user_id: self.user_id@,
            title: self.title@,
            muted_segments: match self.muted_segments {
                Some(v) => v@,
                None => Seq::empty(),
            },
        }
    }
}

impl TwitchVodData {
    pub fn new(
        id: String,
        stream_id: Option<String>,
        user_id: String,
        title: String,
        muted_segments: Option<Vec<MutedStreamSegment>>,
    ) -> (r: TwitchVodData)
        ensures
            r@.id == id@,
            r@.stream_id == (match stream_id {
                Some(s) => Some(s@),
                None => None,
            }),
            r@.user_id == user_id@,
            r@.title == title@,
            r@.muted_segments == (match muted_segments {
                Some(v) => v@,
                None => Seq::empty(),
            }),
    {
        TwitchVodData { id, stream_id, user_id, title, muted_segments }
    }

    pub fn vod_id(&self) -> (r: &str)
        ensures
            r@ == self@.id,
    {
        self.id.as_str()
    }

    /// Sometimes in really old vods the stream ID will be null.
    pub fn stream_id(&self) -> (r: Option<&str>)
        ensures
            r matches Some(s) ==> self@.stream_id == Some(s@),
            r is None ==> self@.stream_id is None,
    {
        match &self.stream_id {
            Some(s) => Some(s.as_str()),
            None => None,
        }
    }

    pub fn user_twitch_id(&self) -> (r: &str)
        ensures
            r@ == self@.user_id,
    {
        self.user_id.as_str()
    }

    pub fn vod_title(&self) -> (r: &str)
        ensures
            r@ == self@.title,
    {
        self.title.as_str()
    }

    /// The muted segments; none where the listing gave none.
    pub fn muted_segments(&self) -> (r: &[MutedStreamSegment])
        ensures
            r@ == self@.muted_segments,
    {
        match &self.muted_segments {
            Some(v) => v.as_slice(),
            None => &[],
        }
    }
}

/// The platform's video listing.
#[derive(Debug)]
pub struct TwitchVodResponse {
    pub vod_list: Vec<TwitchVodData>,
}

/// The fewest and the most days back that the nightly job looks for videos.
pub const VOD_AGE_DAYS_MIN: usize = 1;
pub const VOD_AGE_DAYS_MAX: usize = 60;

pub open spec fn clamped_days(days: int) -> int {
    if days < VOD_AGE_DAYS_MIN {
        VOD_AGE_DAYS_MIN as int
    } else if days > VOD_AGE_DAYS_MAX {
        VOD_AGE_DAYS_MAX as int
    } else {
        days
    }
}

/// How many days back to check for videos, clamped to 1 to 60.
pub fn clamp_vod_age_days(vod_age_days: usize) -> (r: usize)
    ensures
        r == clamped_days(vod_age_days as int),
{
    if vod_age_days < VOD_AGE_DAYS_MIN {
        VOD_AGE_DAYS_MIN
    } else if vod_age_days > VOD_AGE_DAYS_MAX {
        VOD_AGE_DAYS_MAX
    } else {
        vod_age_days
    }
}

/// Whether a video's stream is one of the wanted streams; a video without a
/// stream is never wanted.
pub open spec fn is_wanted(stream_id: Option<Seq<char>>, wanted: Seq<String>) -> bool {
    match stream_id {
        Some(s) => exists|k: int| 0 <= k < wanted.len() && (#[trigger] wanted[k])@ == s,
        None => false,
    }
}

pub open spec fn wanted_vod(wanted: Seq<String>) -> spec_fn(TwitchVodData) -> bool {
    |v: TwitchVodData| is_wanted(v@.stream_id, wanted)
}

fn contains_stream_id(wanted: &Vec<String>, stream_id: &str) -> (r: bool)
    ensures
        r == exists|k: int| 0 <= k < wanted@.len() && (#[trigger] wanted@[k])@ == stream_id@,
{
    let owned = stream_id.to_owned();
    let mut i: usize = 0;
    while i < wanted.len()
        invariant
            i <= wanted.len(),
            owned@ == stream_id@,
            forall|k: int| 0 <= k < i ==> (#[trigger] wanted@[k])@ != stream_id@,
        decreases wanted.len() - i,
    {
        if wanted[i] == owned {
            return true;
        }
        i = i + 1;
    }
    false
}

impl TwitchVodResponse {
    /// Keeps, in order, the videos whose stream is among `desired_stream_ids`.
    pub fn retain_desired_vods(&mut self, desired_stream_ids: &Vec<String>)
        ensures
            final(self).vod_list@ == old(self).vod_list@.filter(wanted_vod(desired_stream_ids@)),
    {
        let ghost all = self.vod_list@;
        let ghost pred = wanted_vod(desired_stream_ids@);
        let mut kept: Vec<TwitchVodData> = Vec::new();
        let n = self.vod_list.len();
        let mut i: usize = 0;
        while i < n
            invariant
                n == all.len(),
                i <= n,
                pred == wanted_vod(desired_stream_ids@),
                self.vod_list@ == all.subrange(i as int, n as int),
                kept@ == all.subrange(0, i as int).filter(pred),
            decreases n - i,
        {
            let vod = self.vod_list.remove(0);
            proof {
                crate::ledger::lemma_filter_step(all, pred, i as int);
                assert(all.subrange(i + 1, n as int) =~= all.subrange(i as int, n as int).remove(0));
            }
            let wanted = match vod.stream_id() {
                Some(stream_id) => contains_stream_id(desired_stream_ids, stream_id),
                None => false,
            };
            assert(vod == all[i as int]);
            assert(pred(vod) == is_wanted(vod@.stream_id, desired_stream_ids@));
            assert(wanted == is_wanted(vod@.stream_id, desired_stream_ids@));
            if wanted {
                kept.push(vod);
            }
            i = i + 1;
        }
        proof {
            assert(all.subrange(0, n as int) =~= all);
        }
        self.vod_list = kept;
    }
}

} // verus!
