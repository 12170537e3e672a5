use twitch_tracker::nightly_vod_response::TwitchVodData;
use twitch_tracker::vod_stream_pairs::{build_vod_stream_pairs, pair_user_vods, StreamRecord};

fn vod(id: &str, stream: Option<&str>) -> TwitchVodData {
    TwitchVodData::new(id.to_string(), stream.map(str::to_string), "1".to_string(), "t".to_string(), None)
}

fn stream(id: i32, twitch_stream_id: u64) -> StreamRecord {
    StreamRecord { id, twitch_user_id: 1, twitch_stream_id }
}

#[test]
fn pairs_each_stream_once() {
    let streams = vec![stream(1, 100), stream(2, 200), stream(3, 300)];
    let mut taken = Vec::new();
    let pairs = pair_user_vods(
        vec![vod("a", Some("200")), vod("b", None), vod("c", Some("200")), vod("d", Some("999")), vod("e", Some("100"))],
        &streams,
        &mut taken,
    );
    let got: Vec<(&str, i32)> = pairs.iter().map(|p| (p.vod.vod_id(), p.stream.id)).collect();
    assert_eq!(got, vec![("a", 2), ("e", 1)]);
    assert_eq!(taken, vec!["200".to_string(), "100".to_string()]);
}

#[test]
fn later_stream_wins_a_shared_id_and_users_share_streams() {
    let streams = vec![stream(1, 100), stream(2, 100), stream(3, 300)];
    let result = build_vod_stream_pairs(
        vec![
            (7, vec![vod("a", Some("100"))]),
            (8, vec![vod("b", Some("100")), vod("c", Some("300")), vod("z", Some("0300"))]),
        ],
        &streams,
    );
    assert_eq!(result.len(), 2);
    assert_eq!(result[0].user_id, 7);
    let first: Vec<(&str, i32)> = result[0].vods_and_streams.iter().map(|p| (p.vod.vod_id(), p.stream.id)).collect();
    assert_eq!(first, vec![("a", 2)]);
    assert_eq!(result[1].user_id, 8);
    let second: Vec<(&str, i32)> = result[1].vods_and_streams.iter().map(|p| (p.vod.vod_id(), p.stream.id)).collect();
    assert_eq!(second, vec![("c", 3)]);
}
