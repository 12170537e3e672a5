use vstd::prelude::*;

verus! {

/// A muted stretch of a video; values are in seconds.
#[derive(Clone, Copy, Debug, PartialEq, Eq, Structural)]
pub struct MutedStreamSegment {
    duration: i32,
    offset: i32,
}

pub struct MutedStreamSegmentView {
    pub duration: i32,
    pub offset: i32,
}

impl View for MutedStreamSegment {
    type V = MutedStreamSegmentView;

    closed spec fn view(&self) -> MutedStreamSegmentView {
        MutedStreamSegmentView { duration: self.duration, offset: self.offset }
    }
}

impl MutedStreamSegment {
    pub fn new(duration: i32, offset: i32) -> (r: MutedStreamSegment)
        ensures
            r@.duration == duration,
            r@.offset == offset,
    {
        MutedStreamSegment { duration, offset }
    }

    /// Returns the duration in seconds of the muted segment.
    pub fn duration(&self) -> (r: i32)
        ensures
            r == self@.duration,
    {
        self.duration
    }

    /// Returns the offset in seconds the muted segment was.
    pub fn offset(&self) -> (r: i32)
        ensures
            r == self@.offset,
    {
        self.offset
    }
}

/// One video of the platform's video listing.
#[derive(Debug)]
pub struct TwitchVodData {
    id: String,
    stream_id: String,
    user_id: i32,
    title: String,
    muted_segments: Vec<MutedStreamSegment>,
}

pub struct TwitchVodDataView {
    pub id: Seq<char>,
    pub stream_id: Seq<char>,
    pub user_id: i32,
    pub title: Seq<char>,
    pub muted_segments: Seq<MutedStreamSegment>,
}

impl View for TwitchVodData {
    type V = TwitchVodDataView;

    closed spec fn view(&self) -> TwitchVodDataView {
        TwitchVodDataView {
            id: self.id@,
            stream_id: self.stream_id@,
            user_id: self.user_id,
            title: self.title@,
            muted_segments: self.muted_segments@,
        }
    }
}

impl TwitchVodData {
    pub fn new(
        id: String,
        stream_id: String,
        user_id: i32,
        title: String,
        muted_segments: Vec<MutedStreamSegment>,
    ) -> (r: TwitchVodData)
        ensures
            r@.id == id@,
            r@.stream_id == stream_id@,
            r@.user_id == user_id,
            r@.title == title@,
            r@.muted_segments == muted_segments@,
    {
        TwitchVodData { id, stream_id, user_id, title, muted_segments }
    }

    pub fn vod_id(&self) -> (r: &str)
        ensures
            r@ == self@.id,
    {
        self.id.as_str()
    }

    pub fn stream_id(&self) -> (r: &str)
        ensures
            r@ == self@.stream_id,
    {
        self.stream_id.as_str()
    }

    pub fn user_twitch_id(&self) -> (r: i32)
        ensures
            r == self@.user_id,
    {
        self.user_id
    }

    pub fn vod_title(&self) -> (r: &str)
        ensures
            r@ == self@.title,
    {
        self.title.as_str()
    }

    pub fn muted_segments(&self) -> (r: &Vec<MutedStreamSegment>)
        ensures
            r@ == self@.muted_segments,
    {
        &self.muted_segments
    }
}

/// The platform's video listing.
#[derive(Debug)]
pub struct TwitchVodResponse {
    data: Vec<TwitchVodData>,
}

impl TwitchVodResponse {
    pub fn new(data: Vec<TwitchVodData>) -> (r: TwitchVodResponse)
        ensures
            r.vods() == data@,
    {
        TwitchVodResponse { data }
    }

    pub closed spec fn vods(&self) -> Seq<TwitchVodData> {
        self.data@
    }

    pub fn get_vod_list(&self) -> (r: &Vec<TwitchVodData>)
        ensures
            r@ == self.vods(),
    {
        &self.data
    }
}

} // verus!
