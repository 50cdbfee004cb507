//! The genre index: the mapping from genre label to the track ids assigned
//! that label. It is built by expanding the artist buckets through each
//! artist's resolved genre set, so a multi-genre artist's tracks appear under
//! every one of its genres.
use vstd::prelude::*;

use crate::errors::PipelineError;
use crate::model::{Artist, ArtistData, unknown_genre};

verus! {

/// One genre label with the tracks assigned to it.
pub struct GenreBucket {
    pub genre: String,
    pub tracks: Vec<String>,
}

/// The mathematical content of a [`GenreBucket`].
pub struct BucketData {
    pub genre: Seq<char>,
    pub tracks: Seq<Seq<char>>,
}

impl View for GenreBucket {
    type V = BucketData;

    open spec fn view(&self) -> BucketData {
        BucketData { genre: self.genre@, tracks: self.tracks.deep_view() }
    }
}

impl DeepView for GenreBucket {
    type V = BucketData;

    open spec fn deep_view(&self) -> BucketData {
        self.view()
    }
}

/// Whether some bucket in `s` carries the label `g`.
pub open spec fn contains_genre(s: Seq<BucketData>, g: Seq<char>) -> bool {
    exists|k: int| 0 <= k < s.len() && s[k].genre == g
}

/// The position of the bucket labelled `g`; meaningful only when
/// `contains_genre(s, g)` holds and labels are unique.
pub open spec fn genre_pos(s: Seq<BucketData>, g: Seq<char>) -> int {
    choose|k: int| 0 <= k < s.len() && s[k].genre == g
}

/// The tracks filed under label `g`.
pub open spec fn bucket_tracks(s: Seq<BucketData>, g: Seq<char>) -> Seq<Seq<char>> {
    s[genre_pos(s, g)].tracks
}

/// No two buckets in `s` share a label.
pub open spec fn unique_genres(s: Seq<BucketData>) -> bool {
    forall|j: int, k: int| 0 <= j < k < s.len() ==> s[j].genre != s[k].genre
}

/// Filing `ts` under label `g`: the tracks are appended to the bucket with
/// that label, and an unseen label gets a fresh bucket at the end.
pub open spec fn gi_add(s: Seq<BucketData>, g: Seq<char>, ts: Seq<Seq<char>>) -> Seq<BucketData> {
    if contains_genre(s, g) {
        let k = genre_pos(s, g);
        s.update(k, BucketData { genre: s[k].genre, tracks: s[k].tracks + ts })
    } else {
        s.push(BucketData { genre: g, tracks: ts })
    }
}

/// Filing `ts` under each label of `gs`, first to last.
pub open spec fn gi_add_genres(
    s: Seq<BucketData>,
    gs: Seq<Seq<char>>,
    ts: Seq<Seq<char>>,
) -> Seq<BucketData>
    decreases gs.len(),
{
    if gs.len() == 0 {
        s
    } else {
        gi_add_genres(gi_add(s, gs[0], ts), gs.drop_first(), ts)
    }
}

/// The genre index that a list of resolved artists builds, first to last.
pub open spec fn genre_index_of(artists: Seq<ArtistData>) -> Seq<BucketData>
    decreases artists.len(),
{
    if artists.len() == 0 {
        Seq::empty()
    } else {
        gi_add_genres(
            genre_index_of(artists.drop_last()),
            artists.last().genres,
            artists.last().tracks,
        )
    }
}

/// What one artist's genre list contributes to label `g`: its tracks, once
/// per occurrence of `g` in the list.
pub open spec fn genre_share(
    gs: Seq<Seq<char>>,
    ts: Seq<Seq<char>>,
    g: Seq<char>,
) -> Seq<Seq<char>>
    decreases gs.len(),
{
    if gs.len() == 0 {
        Seq::empty()
    } else {
        (if gs[0] == g {
            ts
        } else {
            Seq::empty()
        }) + genre_share(gs.drop_first(), ts, g)
    }
}

/// All tracks assigned label `g`: each artist's contribution, in artist order.
pub open spec fn genre_tracks_spec(artists: Seq<ArtistData>, g: Seq<char>) -> Seq<Seq<char>>
    decreases artists.len(),
{
    if artists.len() == 0 {
        Seq::empty()
    } else {
        genre_tracks_spec(artists.drop_last(), g) + genre_share(
            artists.last().genres,
            artists.last().tracks,
            g,
        )
    }
}

proof fn lemma_gi_add_effect(s: Seq<BucketData>, g: Seq<char>, ts: Seq<Seq<char>>)
    requires
        unique_genres(s),
    ensures
        unique_genres(gi_add(s, g, ts)),
        contains_genre(gi_add(s, g, ts), g),
        bucket_tracks(gi_add(s, g, ts), g) == (if contains_genre(s, g) {
            bucket_tracks(s, g)
        } else {
            Seq::<Seq<char>>::empty()
        }) + ts,
        forall|h: Seq<char>|
            h != g ==> (#[trigger] contains_genre(gi_add(s, g, ts), h) == contains_genre(s, h)),
        forall|h: Seq<char>|
            h != g && contains_genre(s, h) ==> #[trigger] bucket_tracks(gi_add(s, g, ts), h)
                == bucket_tracks(s, h),
{
    let t = gi_add(s, g, ts);
    if contains_genre(s, g) {
        let k = genre_pos(s, g);
        assert(0 <= k < s.len() && s[k].genre == g);
        assert(t[k].genre == g);
        assert(contains_genre(t, g));
        let k2 = genre_pos(t, g);
        assert(0 <= k2 < t.len() && t[k2].genre == g);
        assert(k2 == k);
        assert(bucket_tracks(t, g) == s[k].tracks + ts);
        assert(Seq::<Seq<char>>::empty() + ts =~= ts);
        assert forall|h: Seq<char>| h != g implies (#[trigger] contains_genre(t, h)
            == contains_genre(s, h)) by {
            if contains_genre(s, h) {
                let m = genre_pos(s, h);
                assert(t[m].genre == h);
            }
            if contains_genre(t, h) {
                let m = genre_pos(t, h);
                assert(s[m].genre == h);
            }
        }
        assert forall|h: Seq<char>| h != g && contains_genre(s, h) implies #[trigger] bucket_tracks(
            t,
            h,
        ) == bucket_tracks(s, h) by {
            let m = genre_pos(s, h);
            assert(0 <= m < s.len() && s[m].genre == h);
            assert(m != k);
            assert(t[m].genre == h);
            let m2 = genre_pos(t, h);
            assert(0 <= m2 < t.len() && t[m2].genre == h);
            assert(m2 == m);
        }
    } else {
        let n = s.len() as int;
        assert(t[n].genre == g);
        assert(contains_genre(t, g));
        let k2 = genre_pos(t, g);
        assert(0 <= k2 < t.len() && t[k2].genre == g);
        assert forall|j: int| 0 <= j < s.len() implies s[j].genre != g by {
            if s[j].genre == g {
                assert(contains_genre(s, g));
            }
        }
        assert(k2 == n);
        assert(bucket_tracks(t, g) == ts);
        assert(Seq::<Seq<char>>::empty() + ts =~= ts);
        assert forall|h: Seq<char>| h != g implies (#[trigger] contains_genre(t, h)
            == contains_genre(s, h)) by {
            if contains_genre(s, h) {
                let m = genre_pos(s, h);
                assert(t[m].genre == h);
            }
            if contains_genre(t, h) {
                let m = genre_pos(t, h);
                assert(0 <= m < t.len() && t[m].genre == h);
                assert(m < n);
                assert(s[m].genre == h);
            }
        }
        assert forall|h: Seq<char>| h != g && contains_genre(s, h) implies #[trigger] bucket_tracks(
            t,
            h,
        ) == bucket_tracks(s, h) by {
            let m = genre_pos(s, h);
            assert(0 <= m < s.len() && s[m].genre == h);
            assert(t[m].genre == h);
            let m2 = genre_pos(t, h);
            assert(0 <= m2 < t.len() && t[m2].genre == h);
            assert(m2 == m);
        }
    }
}

proof fn lemma_gi_add_genres_effect(s: Seq<BucketData>, gs: Seq<Seq<char>>, ts: Seq<Seq<char>>)
    requires
        unique_genres(s),
    ensures
        unique_genres(gi_add_genres(s, gs, ts)),
        forall|h: Seq<char>|
            #[trigger] contains_genre(gi_add_genres(s, gs, ts), h) == (contains_genre(s, h)
                || gs.contains(h)),
        forall|h: Seq<char>|
            contains_genre(gi_add_genres(s, gs, ts), h) ==> #[trigger] bucket_tracks(
                gi_add_genres(s, gs, ts),
                h,
            ) == (if contains_genre(s, h) {
                bucket_tracks(s, h)
            } else {
                Seq::<Seq<char>>::empty()
            }) + genre_share(gs, ts, h),
    decreases gs.len(),
{
    let t = gi_add_genres(s, gs, ts);
    if gs.len() == 0 {
        assert forall|h: Seq<char>| contains_genre(t, h) implies #[trigger] bucket_tracks(t, h)
            == (if contains_genre(s, h) {
            bucket_tracks(s, h)
        } else {
            Seq::<Seq<char>>::empty()
        }) + genre_share(gs, ts, h) by {
            assert(bucket_tracks(s, h) + Seq::<Seq<char>>::empty() =~= bucket_tracks(s, h));
        }
    } else {
        let g0 = gs[0];
        let s1 = gi_add(s, g0, ts);
        lemma_gi_add_effect(s, g0, ts);
        lemma_gi_add_genres_effect(s1, gs.drop_first(), ts);
        assert forall|h: Seq<char>| #[trigger] contains_genre(t, h) == (contains_genre(s, h)
            || gs.contains(h)) by {
            if gs.contains(h) {
                let i = choose|i: int| 0 <= i < gs.len() && gs[i] == h;
                if i == 0 {
                    assert(h == g0);
                } else {
                    assert(gs.drop_first()[i - 1] == h);
                    assert(gs.drop_first().contains(h));
                }
            }
            if contains_genre(t, h) && !contains_genre(s, h) {
                if h == g0 {
                    assert(gs[0] == h);
                    assert(gs.contains(h));
                } else if gs.drop_first().contains(h) {
                    let i = choose|i: int| 0 <= i < gs.drop_first().len() && gs.drop_first()[i] == h;
                    assert(gs[i + 1] == h);
                    assert(gs.contains(h));
                }
            }
        }
        assert forall|h: Seq<char>| contains_genre(t, h) implies #[trigger] bucket_tracks(t, h)
            == (if contains_genre(s, h) {
            bucket_tracks(s, h)
        } else {
            Seq::<Seq<char>>::empty()
        }) + genre_share(gs, ts, h) by {
            let base = if contains_genre(s, h) {
                bucket_tracks(s, h)
            } else {
                Seq::<Seq<char>>::empty()
            };
            let base1 = if contains_genre(s1, h) {
                bucket_tracks(s1, h)
            } else {
                Seq::<Seq<char>>::empty()
            };
            assert(bucket_tracks(t, h) == base1 + genre_share(gs.drop_first(), ts, h));
            if h == g0 {
                assert(base1 == base + ts);
                assert(genre_share(gs, ts, h) == ts + genre_share(gs.drop_first(), ts, h));
                assert((base + ts) + genre_share(gs.drop_first(), ts, h) =~= base + (ts
                    + genre_share(gs.drop_first(), ts, h)));
            } else {
                assert(base1 == base);
                assert(genre_share(gs, ts, h) == Seq::<Seq<char>>::empty() + genre_share(
                    gs.drop_first(),
                    ts,
                    h,
                ));
                assert(Seq::<Seq<char>>::empty() + genre_share(gs.drop_first(), ts, h)
                    =~= genre_share(gs.drop_first(), ts, h));
            }
        }
    }
}

/// The genre index built from a list of resolved artists is exactly
/// characterized: a label has a bucket if and only if some artist carries it,
/// and that bucket holds each artist's contribution in artist order.
pub proof fn lemma_genre_index_characterized(artists: Seq<ArtistData>)
    ensures
        unique_genres(genre_index_of(artists)),
        forall|h: Seq<char>|
            #[trigger] contains_genre(genre_index_of(artists), h) == (exists|i: int|
                0 <= i < artists.len() && #[trigger] artists[i].genres.contains(h)),
        forall|h: Seq<char>|
            contains_genre(genre_index_of(artists), h) ==> #[trigger] bucket_tracks(
                genre_index_of(artists),
                h,
            ) == genre_tracks_spec(artists, h),
    decreases artists.len(),
{
    let t = genre_index_of(artists);
    if artists.len() == 0 {
        assert forall|h: Seq<char>| !contains_genre(t, h) by {
            if contains_genre(t, h) {
                let k = genre_pos(t, h);
            }
        }
    } else {
        let pre = artists.drop_last();
        let a = artists.last();
        let s = genre_index_of(pre);
        lemma_genre_index_characterized(pre);
        lemma_gi_add_genres_effect(s, a.genres, a.tracks);
        assert forall|h: Seq<char>| #[trigger] contains_genre(t, h) == (exists|i: int|
            0 <= i < artists.len() && #[trigger] artists[i].genres.contains(h)) by {
            if contains_genre(t, h) {
                if contains_genre(s, h) {
                    let i = choose|i: int|
                        0 <= i < pre.len() && #[trigger] pre[i].genres.contains(h);
                    assert(artists[i].genres.contains(h));
                } else {
                    assert(a.genres.contains(h));
                    assert(artists[artists.len() - 1].genres.contains(h));
                }
            }
            if exists|i: int| 0 <= i < artists.len() && #[trigger] artists[i].genres.contains(h) {
                let i = choose|i: int|
                    0 <= i < artists.len() && #[trigger] artists[i].genres.contains(h);
                if i < pre.len() {
                    assert(pre[i].genres.contains(h));
                    assert(contains_genre(s, h));
                } else {
                    assert(a.genres.contains(h));
                }
            }
        }
        assert forall|h: Seq<char>| contains_genre(t, h) implies #[trigger] bucket_tracks(t, h)
            == genre_tracks_spec(artists, h) by {
            if contains_genre(s, h) {
                assert(bucket_tracks(s, h) == genre_tracks_spec(pre, h));
            } else {
                lemma_no_genre_no_tracks(pre, h);
                assert(genre_tracks_spec(pre, h) =~= Seq::<Seq<char>>::empty());
            }
        }
    }
}

/// A label no artist carries collects no tracks.
proof fn lemma_no_genre_no_tracks(artists: Seq<ArtistData>, h: Seq<char>)
    requires
        forall|i: int| 0 <= i < artists.len() ==> !(#[trigger] artists[i].genres.contains(h)),
    ensures
        genre_tracks_spec(artists, h) == Seq::<Seq<char>>::empty(),
    decreases artists.len(),
{
    if artists.len() > 0 {
        let pre = artists.drop_last();
        assert forall|i: int| 0 <= i < pre.len() implies !(#[trigger] pre[i].genres.contains(
            h,
        )) by {
            assert(artists[i] == pre[i]);
        }
        lemma_no_genre_no_tracks(pre, h);
        assert(!artists.last().genres.contains(h));
        lemma_contrib_absent(artists.last().genres, artists.last().tracks, h);
        assert(genre_tracks_spec(artists, h) =~= Seq::<Seq<char>>::empty());
    }
}

proof fn lemma_contrib_absent(gs: Seq<Seq<char>>, ts: Seq<Seq<char>>, h: Seq<char>)
    requires
        !gs.contains(h),
    ensures
        genre_share(gs, ts, h) == Seq::<Seq<char>>::empty(),
    decreases gs.len(),
{
    if gs.len() > 0 {
        assert(gs[0] != h);
        assert forall|i: int| 0 <= i < gs.drop_first().len() implies gs.drop_first()[i] != h by {
            assert(gs.drop_first()[i] == gs[i + 1]);
        }
        assert(!gs.drop_first().contains(h));
        lemma_contrib_absent(gs.drop_first(), ts, h);
        assert(genre_share(gs, ts, h) =~= Seq::<Seq<char>>::empty());
    }
}

proof fn lemma_contrib_member(gs: Seq<Seq<char>>, ts: Seq<Seq<char>>, g: Seq<char>, t: Seq<char>)
    requires
        gs.contains(g),
        ts.contains(t),
    ensures
        genre_share(gs, ts, g).contains(t),
    decreases gs.len(),
{
    if gs[0] == g {
        let i = choose|i: int| 0 <= i < ts.len() && ts[i] == t;
        assert(genre_share(gs, ts, g)[i] == t);
    } else {
        assert forall|i: int|
            0 <= i < gs.len() && gs[i] == g implies gs.drop_first().contains(g) by {
            assert(gs.drop_first()[i - 1] == g);
        }
        let i = choose|i: int| 0 <= i < gs.len() && gs[i] == g;
        lemma_contrib_member(gs.drop_first(), ts, g, t);
        let j = choose|j: int|
            0 <= j < genre_share(gs.drop_first(), ts, g).len() && genre_share(
                gs.drop_first(),
                ts,
                g,
            )[j] == t;
        assert(genre_share(gs, ts, g)[j] == t);
    }
}

proof fn lemma_contrib_member_inv(gs: Seq<Seq<char>>, ts: Seq<Seq<char>>, g: Seq<char>, t: Seq<char>)
    requires
        genre_share(gs, ts, g).contains(t),
    ensures
        gs.contains(g),
        ts.contains(t),
    decreases gs.len(),
{
    assert(gs.len() > 0);
    let head = if gs[0] == g {
        ts
    } else {
        Seq::<Seq<char>>::empty()
    };
    let rest = genre_share(gs.drop_first(), ts, g);
    let j = choose|j: int|
        0 <= j < genre_share(gs, ts, g).len() && genre_share(gs, ts, g)[j] == t;
    if j < head.len() {
        assert(gs[0] == g);
        assert(ts[j] == t);
    } else {
        assert(rest[j - head.len()] == t);
        assert(rest.contains(t));
        lemma_contrib_member_inv(gs.drop_first(), ts, g, t);
        let i = choose|i: int| 0 <= i < gs.drop_first().len() && gs.drop_first()[i] == g;
        assert(gs[i + 1] == g);
    }
}

proof fn lemma_genre_tracks_member(artists: Seq<ArtistData>, i: int, g: Seq<char>, t: Seq<char>)
    requires
        0 <= i < artists.len(),
        artists[i].genres.contains(g),
        artists[i].tracks.contains(t),
    ensures
        genre_tracks_spec(artists, g).contains(t),
    decreases artists.len(),
{
    let pre = artists.drop_last();
    let share = genre_share(artists.last().genres, artists.last().tracks, g);
    if i == artists.len() - 1 {
        lemma_contrib_member(artists.last().genres, artists.last().tracks, g, t);
        let j = choose|j: int| 0 <= j < share.len() && share[j] == t;
        assert(genre_tracks_spec(artists, g)[genre_tracks_spec(pre, g).len() + j] == t);
    } else {
        assert(pre[i] == artists[i]);
        lemma_genre_tracks_member(pre, i, g, t);
        let j = choose|j: int|
            0 <= j < genre_tracks_spec(pre, g).len() && genre_tracks_spec(pre, g)[j] == t;
        assert(genre_tracks_spec(artists, g)[j] == t);
    }
}

proof fn lemma_genre_tracks_member_inv(artists: Seq<ArtistData>, g: Seq<char>, t: Seq<char>)
    requires
        genre_tracks_spec(artists, g).contains(t),
    ensures
        exists|i: int|
            0 <= i < artists.len() && (#[trigger] artists[i].genres.contains(g))
                && artists[i].tracks.contains(t),
    decreases artists.len(),
{
    assert(artists.len() > 0);
    let pre = artists.drop_last();
    let a = artists.last();
    let head = genre_tracks_spec(pre, g);
    let share = genre_share(a.genres, a.tracks, g);
    let j = choose|j: int|
        0 <= j < genre_tracks_spec(artists, g).len() && genre_tracks_spec(artists, g)[j] == t;
    if j < head.len() {
        assert(head[j] == t);
        assert(head.contains(t));
        lemma_genre_tracks_member_inv(pre, g, t);
        let i = choose|i: int|
            0 <= i < pre.len() && (#[trigger] pre[i].genres.contains(g)) && pre[i].tracks.contains(
                t,
            );
        assert(artists[i].genres.contains(g) && artists[i].tracks.contains(t));
    } else {
        assert(share[j - head.len()] == t);
        assert(share.contains(t));
        lemma_contrib_member_inv(a.genres, a.tracks, g, t);
        let n = artists.len() - 1;
        assert(artists[n].genres.contains(g) && artists[n].tracks.contains(t));
    }
}

/// Law: a track of an artist appears in the bucket of every genre the artist
/// carries. In particular, an artist with genre set `{g1, g2}` has each of
/// its tracks in both buckets — duplication across genres is by design.
pub proof fn lemma_tracks_under_every_genre(
    artists: Seq<ArtistData>,
    i: int,
    g1: Seq<char>,
    g2: Seq<char>,
    t: Seq<char>,
)
    requires
        0 <= i < artists.len(),
        artists[i].genres.contains(g1),
        artists[i].genres.contains(g2),
        artists[i].tracks.contains(t),
    ensures
        contains_genre(genre_index_of(artists), g1),
        contains_genre(genre_index_of(artists), g2),
        bucket_tracks(genre_index_of(artists), g1).contains(t),
        bucket_tracks(genre_index_of(artists), g2).contains(t),
{
    lemma_genre_index_characterized(artists);
    lemma_genre_tracks_member(artists, i, g1, t);
    lemma_genre_tracks_member(artists, i, g2, t);
}

/// Law: a track whose artist resolved to the sentinel label alone — an
/// artist the upstream gave no genre tags — lands in the sentinel bucket and
/// in no other, provided no other artist also carries the track.
pub proof fn lemma_unknown_genre_exclusive(artists: Seq<ArtistData>, i: int, t: Seq<char>)
    requires
        0 <= i < artists.len(),
        artists[i].genres == seq![unknown_genre()],
        artists[i].tracks.contains(t),
        forall|j: int|
            0 <= j < artists.len() && j != i ==> !(#[trigger] artists[j].tracks.contains(t)),
    ensures
        contains_genre(genre_index_of(artists), unknown_genre()),
        bucket_tracks(genre_index_of(artists), unknown_genre()).contains(t),
        forall|h: Seq<char>|
            h != unknown_genre() && #[trigger] contains_genre(genre_index_of(artists), h)
                ==> !bucket_tracks(genre_index_of(artists), h).contains(t),
{
    lemma_genre_index_characterized(artists);
    assert(artists[i].genres[0] == unknown_genre());
    assert(artists[i].genres.contains(unknown_genre()));
    lemma_genre_tracks_member(artists, i, unknown_genre(), t);
    assert forall|h: Seq<char>|
        h != unknown_genre() && #[trigger] contains_genre(genre_index_of(artists), h)
            implies !bucket_tracks(genre_index_of(artists), h).contains(t) by {
        if bucket_tracks(genre_index_of(artists), h).contains(t) {
            lemma_genre_tracks_member_inv(artists, h, t);
            let j = choose|j: int|
                0 <= j < artists.len() && (#[trigger] artists[j].genres.contains(h))
                    && artists[j].tracks.contains(t);
            assert(j == i);
            let k = choose|k: int|
                0 <= k < artists[i].genres.len() && artists[i].genres[k] == h;
            assert(artists[i].genres[k] == unknown_genre());
        }
    }
}

/// The genre index under construction or ready for lookups.
pub struct GenreIndex {
    buckets: Vec<GenreBucket>,
}

impl View for GenreIndex {
    type V = Seq<BucketData>;

    closed spec fn view(&self) -> Seq<BucketData> {
        self.buckets.deep_view()
    }
}

fn clone_strings(v: &Vec<String>) -> (r: Vec<String>)
    ensures
        r@ == v@,
{
    let mut r: Vec<String> = Vec::new();
    let mut i: usize = 0;
    while i < v.len()
        invariant
            i <= v@.len(),
            r@ =~= v@.subrange(0, i as int),
        decreases v@.len() - i,
    {
        r.push(v[i].clone());
        i = i + 1;
    }
    proof {
        assert(v@.subrange(0, v@.len() as int) =~= v@);
    }
    r
}

impl GenreIndex {
    /// The index is well-formed when no genre label repeats.
    pub open spec fn wf(&self) -> bool {
        unique_genres(self@)
    }

    /// An empty genre index.
    pub fn new() -> (gi: GenreIndex)
        ensures
            gi.wf(),
            gi@ == Seq::<BucketData>::empty(),
    {
        let gi = GenreIndex { buckets: Vec::new() };
        proof {
            assert(gi@ =~= Seq::<BucketData>::empty());
        }
        gi
    }

    /// Files copies of `tracks` under `genre`.
    pub fn add_tracks(&mut self, genre: &String, tracks: &Vec<String>)
        requires
            old(self).wf(),
        ensures
            final(self).wf(),
            final(self)@ == gi_add(old(self)@, genre@, tracks.deep_view()),
    {
        let ghost s = self@;
        let n = self.buckets.len();
        let mut k: usize = 0;
        while k < n
            invariant
                n == self.buckets@.len(),
                s == self.buckets.deep_view(),
                s == old(self)@,
                unique_genres(s),
                k <= n,
                forall|m: int| 0 <= m < k ==> #[trigger] s[m].genre != genre@,
            decreases n - k,
        {
            if self.buckets[k].genre == *genre {
                proof {
                    assert(s[k as int].genre == genre@);
                    assert(contains_genre(s, genre@));
                    let p = genre_pos(s, genre@);
                    assert(0 <= p < s.len() && s[p].genre == genre@);
                    assert(p == k as int);
                }
                let mut ext = clone_strings(tracks);
                let ghost prev = self.buckets@;
                let b = &mut self.buckets[k];
                b.tracks.append(&mut ext);
                proof {
                    let t = gi_add(s, genre@, tracks.deep_view());
                    assert forall|m: int|
                        0 <= m < t.len() implies #[trigger] self.buckets.deep_view()[m] == t[m] by {
                        if m == k as int {
                            let nt = self.buckets@[m].tracks;
                            assert(nt@ == prev[m].tracks@ + tracks@);
                            assert forall|j: int|
                                0 <= j < nt@.len() implies #[trigger] nt.deep_view()[j] == (
                            s[m].tracks + tracks.deep_view())[j] by {
                                if j < prev[m].tracks@.len() {
                                    assert(nt@[j] == prev[m].tracks@[j]);
                                    assert(s[m].tracks[j] == prev[m].tracks@[j]@);
                                } else {
                                    assert(nt@[j] == tracks@[j - prev[m].tracks@.len()]);
                                }
                            }
                            assert(nt.deep_view() =~= s[m].tracks + tracks.deep_view());
                            assert(self.buckets@[m].genre == prev[m].genre);
                        } else {
                            assert(self.buckets@[m] == prev[m]);
                        }
                    }
                    assert(self@ =~= t);
                }
                return ;
            }
            k = k + 1;
        }
        let ghost prev = self.buckets@;
        let ext = clone_strings(tracks);
        let b = GenreBucket { genre: genre.clone(), tracks: ext };
        self.buckets.push(b);
        proof {
            assert(!contains_genre(s, genre@));
            let t = gi_add(s, genre@, tracks.deep_view());
            assert(b@.tracks =~= tracks.deep_view());
            assert forall|m: int| 0 <= m < t.len() implies #[trigger] self.buckets.deep_view()[m]
                == t[m] by {
                if m < s.len() {
                    assert(self.buckets@[m] == prev[m]);
                }
            }
            assert(self@ =~= t);
        }
    }

    /// Files one resolved artist: its tracks under each of its genre labels,
    /// first to last.
    pub fn add_artist(&mut self, a: &Artist)
        requires
            old(self).wf(),
        ensures
            final(self).wf(),
            final(self)@ == gi_add_genres(old(self)@, a@.genres, a@.tracks),
    {
        let ghost start = self@;
        let ghost gs = a@.genres;
        let ghost ts = a@.tracks;
        proof {
            assert(gs.skip(0) =~= gs);
        }
        let mut j: usize = 0;
        while j < a.genres.len()
            invariant
                j <= a.genres@.len(),
                gs == a@.genres,
                ts == a@.tracks,
                gs.len() == a.genres@.len(),
                self.wf(),
                gi_add_genres(start, gs, ts) == gi_add_genres(self@, gs.skip(j as int), ts),
            decreases a.genres@.len() - j,
        {
            let ghost before = self@;
            let g = &a.genres[j];
            self.add_tracks(g, &a.tracks);
            proof {
                assert(g@ == gs[j as int]);
                let rem = gs.skip(j as int);
                assert(rem[0] == gs[j as int]);
                assert(rem.drop_first() =~= gs.skip(j as int + 1));
                assert(gi_add_genres(before, rem, ts) == gi_add_genres(
                    gi_add(before, rem[0], ts),
                    rem.drop_first(),
                    ts,
                ));
                assert(self@ == gi_add(before, g@, a.tracks.deep_view()));
                assert(a.tracks.deep_view() == ts);
            }
            j = j + 1;
        }
        proof {
            assert(gs.skip(gs.len() as int) =~= Seq::<Seq<char>>::empty());
        }
    }

    /// The tracks filed under `genre`, or `NotFound` when no artist carries
    /// that label.
    pub fn lookup(&self, genre: &String) -> (r: Result<&Vec<String>, PipelineError>)
        requires
            self.wf(),
        ensures
            match r {
                Ok(v) => contains_genre(self@, genre@) && v.deep_view() == bucket_tracks(
                    self@,
                    genre@,
                ),
                Err(e) => e == PipelineError::NotFound && !contains_genre(self@, genre@),
            },
    {
        let ghost s = self@;
        let n = self.buckets.len();
        let mut k: usize = 0;
        while k < n
            invariant
                n == self.buckets@.len(),
                s == self.buckets.deep_view(),
                s == self@,
                unique_genres(s),
                k <= n,
                forall|m: int| 0 <= m < k ==> #[trigger] s[m].genre != genre@,
            decreases n - k,
        {
            if self.buckets[k].genre == *genre {
                proof {
                    assert(s[k as int].genre == genre@);
                    assert(contains_genre(s, genre@));
                    let p = genre_pos(s, genre@);
                    assert(0 <= p < s.len() && s[p].genre == genre@);
                    assert(p == k as int);
                }
                return Ok(&self.buckets[k].tracks);
            }
            k = k + 1;
        }
        proof {
            assert(!contains_genre(s, genre@));
        }
        Err(PipelineError::NotFound)
    }

    /// Each genre label with the number of tracks filed under it, in bucket
    /// order: the per-genre summary shown to the operator.
    pub fn summary(&self) -> (r: Vec<(String, usize)>)
        ensures
            r@.len() == self@.len(),
            forall|k: int|
                0 <= k < r@.len() ==> (#[trigger] r@[k]).0@ == self@[k].genre && r@[k].1
                    == self@[k].tracks.len(),
    {
        let mut r: Vec<(String, usize)> = Vec::new();
        let n = self.buckets.len();
        let mut k: usize = 0;
        while k < n
            invariant
                n == self.buckets@.len(),
                self@ == self.buckets.deep_view(),
                k <= n,
                r@.len() == k,
                forall|m: int|
                    0 <= m < k ==> (#[trigger] r@[m]).0@ == self@[m].genre && r@[m].1
                        == self@[m].tracks.len(),
            decreases n - k,
        {
            let g = self.buckets[k].genre.clone();
            let c = self.buckets[k].tracks.len();
            r.push((g, c));
            k = k + 1;
        }
        r
    }
}

/// Builds the whole genre index from a list of resolved artists, first to
/// last: each artist's tracks are filed under every genre it carries.
pub fn build_genre_index(artists: &Vec<Artist>) -> (gi: GenreIndex)
    ensures
        gi.wf(),
        gi@ == genre_index_of(artists.deep_view()),
{
    let mut gi = GenreIndex::new();
    let mut i: usize = 0;
    proof {
        assert(artists.deep_view().subrange(0, 0) =~= Seq::<ArtistData>::empty());
    }
    while i < artists.len()
        invariant
            i <= artists@.len(),
            gi.wf(),
            gi@ == genre_index_of(artists.deep_view().subrange(0, i as int)),
        decreases artists@.len() - i,
    {
        let a = &artists[i];
        gi.add_artist(a);
        proof {
            let dv = artists.deep_view();
            let pre = dv.subrange(0, i as int);
            let post = dv.subrange(0, i + 1);
            assert(post.drop_last() =~= pre);
            assert(post.last() == dv[i as int]);
            assert(a@ == dv[i as int]);
        }
        i = i + 1;
    }
    proof {
        assert(artists.deep_view().subrange(0, artists@.len() as int) =~= artists.deep_view());
    }
    gi
}

} // verus!
