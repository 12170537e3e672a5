use twitch_tracker::nightly_vod_response as nightly;
use twitch_tracker::nightly_vod_response::clamp_vod_age_days;
use twitch_tracker::stream_dto::{seconds_to_time_string, MutedVodSegmentResponse};
use twitch_tracker::time::{push_instant_text, time_from_string};
use twitch_tracker::vod_response::{MutedStreamSegment, TwitchVodData, TwitchVodResponse};

#[test]
fn parses_and_formats_instants() {
    assert_eq!(time_from_string("2025-10-19 17:35:59"), Some(1_760_895_359));
    assert_eq!(time_from_string("2025-10-30 18:50:36"), Some(1_761_850_236));
    assert_eq!(time_from_string("2025-10-30T18:50:36"), None);
    assert_eq!(time_from_string("not a date"), None);
    let mut out = b"at ".to_vec();
    push_instant_text(&mut out, 1_760_895_359);
    assert_eq!(String::from_utf8(out).unwrap(), "at 2025-10-19 17:35:59");
}

#[test]
fn tracker_vod_getters() {
    let segments = vec![MutedStreamSegment::new(30, 600)];
    let vod = TwitchVodData::new("v1".to_string(), "s1".to_string(), 42, "Title".to_string(), segments);
    assert_eq!(vod.vod_id(), "v1");
    assert_eq!(vod.stream_id(), "s1");
    assert_eq!(vod.user_twitch_id(), 42);
    assert_eq!(vod.vod_title(), "Title");
    assert_eq!(vod.muted_segments().len(), 1);
    assert_eq!(vod.muted_segments()[0].duration(), 30);
    assert_eq!(vod.muted_segments()[0].offset(), 600);
    let response = TwitchVodResponse::new(vec![vod]);
    assert_eq!(response.get_vod_list().len(), 1);
    assert_eq!(response.get_vod_list()[0].vod_id(), "v1");
}

#[test]
fn nightly_vod_getters() {
    let with = nightly::TwitchVodData::new(
        "v2".to_string(),
        Some("s2".to_string()),
        "77".to_string(),
        "Other".to_string(),
        Some(vec![nightly::MutedStreamSegment::new(5, 10)]),
    );
    assert_eq!(with.vod_id(), "v2");
    assert_eq!(with.stream_id(), Some("s2"));
    assert_eq!(with.user_twitch_id(), "77");
    assert_eq!(with.vod_title(), "Other");
    assert_eq!(with.muted_segments().len(), 1);
    assert_eq!(with.muted_segments()[0].duration(), 5);
    assert_eq!(with.muted_segments()[0].offset(), 10);
    let without = nightly::TwitchVodData::new("v3".to_string(), None, "1".to_string(), "Old".to_string(), None);
    assert_eq!(without.stream_id(), None);
    assert!(without.muted_segments().is_empty());
    let response = nightly::TwitchVodResponse { vod_list: vec![with, without] };
    assert_eq!(response.vod_list.len(), 2);
}

#[test]
fn vod_age_is_clamped() {
    assert_eq!(clamp_vod_age_days(0), 1);
    assert_eq!(clamp_vod_age_days(1), 1);
    assert_eq!(clamp_vod_age_days(30), 30);
    assert_eq!(clamp_vod_age_days(60), 60);
    assert_eq!(clamp_vod_age_days(61), 60);
    assert_eq!(clamp_vod_age_days(usize::MAX), 60);
}

#[test]
fn keeps_only_desired_vods() {
    let vod = |id: &str, stream: Option<&str>| {
        nightly::TwitchVodData::new(id.to_string(), stream.map(str::to_string), "1".to_string(), "t".to_string(), None)
    };
    let mut response = nightly::TwitchVodResponse {
        vod_list: vec![vod("a", Some("100")), vod("b", None), vod("c", Some("200")), vod("d", Some("300"))],
    };
    response.retain_desired_vods(&vec!["300".to_string(), "100".to_string()]);
    let ids: Vec<&str> = response.vod_list.iter().map(|v| v.vod_id()).collect();
    assert_eq!(ids, vec!["a", "d"]);
    response.retain_desired_vods(&vec![]);
    assert!(response.vod_list.is_empty());
}

#[test]
fn seconds_as_clock_text() {
    assert_eq!(seconds_to_time_string(0), "00:00:00");
    assert_eq!(seconds_to_time_string(3661), "01:01:01");
    assert_eq!(seconds_to_time_string(45296), "12:34:56");
    assert_eq!(seconds_to_time_string(360000), "100:00:00");
    assert_eq!(seconds_to_time_string(-61), format!("{:02}:{:02}:{:02}", -61 / 3600, (-61 % 3600) / 60, -61 % 60));
    let entry = MutedVodSegmentResponse::from_segment(7322, 30);
    assert_eq!(entry.start(), "02:02:02");
    assert_eq!(entry.duration(), 30);
}
