use vstd::prelude::*;

use crate::nightly_vod_response::TwitchVodData;
use crate::stream_dto::{append_decimal, decimal_chars};

verus! {

/// What the pairing reads of a stored stream.
#[derive(Clone, Copy, Debug, PartialEq, Eq, Structural)]
pub struct StreamRecord {
    pub id: i32,
    pub twitch_user_id: i32,
    pub twitch_stream_id: u64,
}

pub struct VodAndStream {
    pub vod: TwitchVodData,
    pub stream: StreamRecord,
}

pub struct VodStreamPairs {
    pub user_id: i32,
    pub vods_and_streams: Vec<VodAndStream>,
}

/// The platform's text of a stream's id.
pub open spec fn stream_key(s: StreamRecord) -> Seq<char> {
    decimal_chars(s.twitch_stream_id as nat)
}

/// The stream whose id text is `key`; the later one where several share it.
pub open spec fn stream_for_key(streams: Seq<StreamRecord>, key: Seq<char>) -> Option<StreamRecord>
    decreases streams.len(),
{
    if streams.len() == 0 {
        None
    } else if stream_key(streams.last()) == key {
        Some(streams.last())
    } else {
        stream_for_key(streams.drop_last(), key)
    }
}

/// The stream that a video takes, given the streams already taken: each
/// stream goes to the first video that names it.
pub open spec fn stream_taken(
    streams: Seq<StreamRecord>,
    taken: Set<Seq<char>>,
    vod: TwitchVodData,
) -> Option<StreamRecord> {
    match vod@.stream_id {
        Some(key) => if taken.contains(key) {
            None
        } else {
            stream_for_key(streams, key)
        },
        None => None,
    }
}

/// The stream ids taken after pairing `vods` in order.
pub open spec fn taken_after(
    vods: Seq<TwitchVodData>,
    streams: Seq<StreamRecord>,
    taken: Set<Seq<char>>,
) -> Set<Seq<char>>
    decreases vods.len(),
{
    if vods.len() == 0 {
        taken
    } else {
        let before = taken_after(vods.drop_last(), streams, taken);
        match stream_taken(streams, before, vods.last()) {
            Some(_) => before.insert(vods.last()@.stream_id->0),
            None => before,
        }
    }
}

/// The pairs that `vods`, in order, make with the streams not yet taken.
pub open spec fn pairs_of(
    vods: Seq<TwitchVodData>,
    streams: Seq<StreamRecord>,
    taken: Set<Seq<char>>,
) -> Seq<(TwitchVodData, StreamRecord)>
    decreases vods.len(),
{
    if vods.len() == 0 {
        Seq::empty()
    } else {
        let before = taken_after(vods.drop_last(), streams, taken);
        let p = pairs_of(vods.drop_last(), streams, taken);
        match stream_taken(streams, before, vods.last()) {
            Some(s) => p.push((vods.last(), s)),
            None => p,
        }
    }
}

pub open spec fn pairs_view(v: Seq<VodAndStream>) -> Seq<(TwitchVodData, StreamRecord)> {
    v.map_values(|p: VodAndStream| (p.vod, p.stream))
}

pub open spec fn keys_of(v: Seq<String>) -> Set<Seq<char>> {
    Set::new(|k: Seq<char>| exists|i: int| 0 <= i < v.len() && (#[trigger] v[i])@ == k)
}

proof fn lemma_keys_push(v: Seq<String>, s: String)
    ensures
        keys_of(v.push(s)) == keys_of(v).insert(s@),
{
    assert forall|k: Seq<char>| #[trigger] keys_of(v.push(s)).contains(k) <==> keys_of(v).insert(
        s@,
    ).contains(k) by {
        if keys_of(v.push(s)).contains(k) {
            let w = choose|w: int| 0 <= w < v.push(s).len() && (#[trigger] v.push(s)[w])@ == k;
            if w < v.len() {
                assert(v[w] == v.push(s)[w]);
            }
        }
        if keys_of(v).contains(k) {
            let w = choose|w: int| 0 <= w < v.len() && (#[trigger] v[w])@ == k;
            assert(v.push(s)[w] == v[w]);
        }
        if k == s@ {
            assert(v.push(s)[v.len() as int] == s);
        }
    }
    assert(keys_of(v.push(s)) =~= keys_of(v).insert(s@));
}

fn stream_id_text(stream: &StreamRecord) -> (r: String)
    ensures
        r@ == stream_key(*stream),
{
    let mut out = String::new();
    append_decimal(&mut out, stream.twitch_stream_id);
    proof {
        assert(out@ =~= stream_key(*stream));
    }
    out
}

fn find_stream(streams: &Vec<StreamRecord>, key: &String) -> (r: Option<StreamRecord>)
    ensures
        r == stream_for_key(streams@, key@),
{
    let mut i: usize = streams.len();
    assert(streams@.subrange(0, i as int) =~= streams@);
    while i > 0
        invariant
            i <= streams.len(),
            stream_for_key(streams@, key@) == stream_for_key(streams@.subrange(0, i as int), key@),
        decreases i,
    {
        assert(streams@.subrange(0, i as int).drop_last() =~= streams@.subrange(0, i - 1));
        let text = stream_id_text(&streams[i - 1]);
        if text == *key {
            return Some(streams[i - 1]);
        }
        i = i - 1;
    }
    None
}

fn is_taken(taken: &Vec<String>, key: &String) -> (r: bool)
    ensures
        r == keys_of(taken@).contains(key@),
{
    let mut i: usize = 0;
    while i < taken.len()
        invariant
            i <= taken.len(),
            forall|k: int| 0 <= k < i ==> (#[trigger] taken@[k])@ != key@,
        decreases taken.len() - i,
    {
        if taken[i] == *key {
            assert(taken@[i as int]@ == key@);
            return true;
        }
        i = i + 1;
    }
    false
}

/// Pairs one user's videos, in order, with the streams they name and that
/// no earlier video took; `taken` gathers the ids of the streams taken.
pub fn pair_user_vods(
    vods: Vec<TwitchVodData>,
    streams: &Vec<StreamRecord>,
    taken: &mut Vec<String>,
) -> (r: Vec<VodAndStream>)
    ensures
        pairs_view(r@) == pairs_of(vods@, streams@, keys_of(old(taken)@)),
        keys_of(final(taken)@) == taken_after(vods@, streams@, keys_of(old(taken)@)),
{
    let ghost all = vods@;
    let ghost start = keys_of(taken@);
    let mut vods = vods;
    let mut pairs: Vec<VodAndStream> = Vec::new();
    let n = vods.len();
    let mut i: usize = 0;
    while i < n
        invariant
            n == all.len(),
            i <= n,
            vods@ == all.subrange(i as int, n as int),
            pairs_view(pairs@) == pairs_of(all.subrange(0, i as int), streams@, start),
            keys_of(taken@) == taken_after(all.subrange(0, i as int), streams@, start),
        decreases n - i,
    {
        let vod = vods.remove(0);
        let ghost prefix = all.subrange(0, i + 1);
        proof {
            assert(prefix.drop_last() =~= all.subrange(0, i as int));
            assert(prefix.last() == vod);
            assert(all.subrange(i + 1, n as int) =~= all.subrange(i as int, n as int).remove(0));
        }
        let ghost before = keys_of(taken@);
        let found = match vod.stream_id() {
            Some(stream_id) => {
                let key = stream_id.to_owned();
                if is_taken(taken, &key) {
                    None
                } else {
                    match find_stream(streams, &key) {
                        Some(stream) => {
                            let ghost prev = taken@;
                            taken.push(key);
                            proof {
                                lemma_keys_push(prev, key);
                            }
                            Some(stream)
                        },
                        None => None,
                    }
                }
            },
            None => None,
        };
        match found {
            Some(stream) => {
                pairs.push(VodAndStream { vod, stream });
                proof {
                    assert(pairs_view(pairs@) =~= pairs_of(prefix, streams@, start));
                }
            },
            None => {
                proof {
                    assert(pairs_view(pairs@) =~= pairs_of(prefix, streams@, start));
                }
            },
        }
        i = i + 1;
    }
    proof {
        assert(all.subrange(0, n as int) =~= all);
    }
    pairs
}

/// The stream ids taken after pairing every user's videos, user after user.
pub open spec fn taken_after_users(
    users: Seq<Seq<TwitchVodData>>,
    streams: Seq<StreamRecord>,
    taken: Set<Seq<char>>,
) -> Set<Seq<char>>
    decreases users.len(),
{
    if users.len() == 0 {
        taken
    } else {
        taken_after(users.last(), streams, taken_after_users(users.drop_last(), streams, taken))
    }
}

/// Each user's pairs; a stream taken by an earlier user is not taken again.
pub open spec fn user_pairs(
    users: Seq<Seq<TwitchVodData>>,
    streams: Seq<StreamRecord>,
) -> Seq<Seq<(TwitchVodData, StreamRecord)>>
    decreases users.len(),
{
    if users.len() == 0 {
        Seq::empty()
    } else {
        user_pairs(users.drop_last(), streams).push(
            pairs_of(
                users.last(),
                streams,
                taken_after_users(users.drop_last(), streams, Set::empty()),
            ),
        )
    }
}

proof fn lemma_user_pairs_len(users: Seq<Seq<TwitchVodData>>, streams: Seq<StreamRecord>)
    ensures
        user_pairs(users, streams).len() == users.len(),
    decreases users.len(),
{
    if users.len() > 0 {
        lemma_user_pairs_len(users.drop_last(), streams);
    }
}

pub open spec fn user_vod_lists(user_vods: Seq<(i32, Vec<TwitchVodData>)>) -> Seq<
    Seq<TwitchVodData>,
> {
    user_vods.map_values(|u: (i32, Vec<TwitchVodData>)| u.1@)
}

/// Pairs each user's videos with the streams they name, users in order: a
/// stream goes to the first video, over all users, that names it.
pub fn build_vod_stream_pairs(
    user_vods: Vec<(i32, Vec<TwitchVodData>)>,
    streams: &Vec<StreamRecord>,
) -> (r: Vec<VodStreamPairs>)
    ensures
        r@.len() == user_vods@.len(),
        forall|k: int| 0 <= k < r@.len() ==> (#[trigger] r@[k]).user_id == user_vods@[k].0,
        forall|k: int|
            0 <= k < r@.len() ==> pairs_view((#[trigger] r@[k]).vods_and_streams@) == user_pairs(
                user_vod_lists(user_vods@),
                streams@,
            )[k],
{
    let ghost all = user_vods@;
    let ghost lists = user_vod_lists(all);
    let mut user_vods = user_vods;
    let mut taken: Vec<String> = Vec::new();
    let mut out: Vec<VodStreamPairs> = Vec::new();
    let n = user_vods.len();
    let mut i: usize = 0;
    proof {
        assert(keys_of(taken@) =~= Set::<Seq<char>>::empty());
    }
    while i < n
        invariant
            n == all.len(),
            i <= n,
            lists == user_vod_lists(all),
            user_vods@ == all.subrange(i as int, n as int),
            out@.len() == i,
            keys_of(taken@) == taken_after_users(lists.subrange(0, i as int), streams@, Set::empty()),
            forall|k: int| 0 <= k < i ==> (#[trigger] out@[k]).user_id == all[k].0,
            forall|k: int|
                0 <= k < i ==> pairs_view((#[trigger] out@[k]).vods_and_streams@) == user_pairs(
                    lists.subrange(0, i as int),
                    streams@,
                )[k],
        decreases n - i,
    {
        let (user_id, vods) = user_vods.remove(0);
        let ghost prefix = lists.subrange(0, i + 1);
        proof {
            assert(all.subrange(i + 1, n as int) =~= all.subrange(i as int, n as int).remove(0));
            assert(prefix.drop_last() =~= lists.subrange(0, i as int));
            assert(prefix.last() == vods@);
        }
        let vods_and_streams = pair_user_vods(vods, streams, &mut taken);
        let ghost old_out = out@;
        out.push(VodStreamPairs { user_id, vods_and_streams });
        proof {
            lemma_user_pairs_len(lists.subrange(0, i as int), streams@);
            assert(user_pairs(prefix, streams@) == user_pairs(lists.subrange(0, i as int), streams@).push(
                pairs_of(prefix.last(), streams@, taken_after_users(prefix.drop_last(), streams@, Set::empty())),
            ));
            assert forall|k: int| 0 <= k < i + 1 implies pairs_view(
                (#[trigger] out@[k]).vods_and_streams@,
            ) == user_pairs(prefix, streams@)[k] by {
                if k < i {
                    assert(out@[k] == old_out[k]);
                }
            }
            assert forall|k: int| 0 <= k < i + 1 implies (#[trigger] out@[k]).user_id == all[k].0 by {
                if k < i {
                    assert(out@[k] == old_out[k]);
                }
            }
        }
        i = i + 1;
    }
    proof {
        assert(lists.subrange(0, n as int) =~= lists);
    }
    out
}

} // verus!
