//! The artist index: the mapping from artist id to the saved tracks whose
//! primary artist it is, built one fetched track at a time. The concurrent
//! fan-out that feeds it lives outside this crate; each entry lands here
//! through [`ArtistIndex::add_entry`] under the caller's lock, or through the
//! sequential driver [`build_index`].
use vstd::prelude::*;

use crate::model::{Artist, ArtistData};

verus! {

/// One fetched saved track: its id and the id of its primary artist.
#[derive(Debug, Clone)]
pub struct TrackEntry {
    pub artist_id: String,
    pub track_id: String,
}

/// The mathematical content of a [`TrackEntry`].
pub struct EntryData {
    pub artist_id: Seq<char>,
    pub track_id: Seq<char>,
}

impl View for TrackEntry {
    type V = EntryData;

    open spec fn view(&self) -> EntryData {
        EntryData { artist_id: self.artist_id@, track_id: self.track_id@ }
    }
}

impl DeepView for TrackEntry {
    type V = EntryData;

    open spec fn deep_view(&self) -> EntryData {
        self.view()
    }
}

/// Whether some artist in `s` carries the id `aid`.
pub open spec fn contains_artist(s: Seq<ArtistData>, aid: Seq<char>) -> bool {
    exists|k: int| 0 <= k < s.len() && s[k].id == aid
}

/// The position of the artist with id `aid` in `s`; meaningful only when
/// `contains_artist(s, aid)` holds and ids are unique.
pub open spec fn artist_pos(s: Seq<ArtistData>, aid: Seq<char>) -> int {
    choose|k: int| 0 <= k < s.len() && s[k].id == aid
}

/// No two artists in `s` share an id.
pub open spec fn unique_ids(s: Seq<ArtistData>) -> bool {
    forall|j: int, k: int| 0 <= j < k < s.len() ==> s[j].id != s[k].id
}

/// Adding one fetched track to the index: the track id is appended to its
/// artist's bucket, and an artist not seen before gets a fresh bucket (with
/// no genre labels yet) at the end.
pub open spec fn index_add(s: Seq<ArtistData>, aid: Seq<char>, tid: Seq<char>) -> Seq<ArtistData> {
    if contains_artist(s, aid) {
        let k = artist_pos(s, aid);
        s.update(k, ArtistData { tracks: s[k].tracks.push(tid), ..s[k] })
    } else {
        s.push(ArtistData { id: aid, genres: Seq::empty(), tracks: seq![tid] })
    }
}

/// The index that a list of fetched entries builds, first to last.
pub open spec fn index_of_entries(entries: Seq<EntryData>) -> Seq<ArtistData>
    decreases entries.len(),
{
    if entries.len() == 0 {
        Seq::empty()
    } else {
        index_add(
            index_of_entries(entries.drop_last()),
            entries.last().artist_id,
            entries.last().track_id,
        )
    }
}

/// The sum of the bucket sizes: how many track attributions `s` holds.
pub open spec fn total_tracks(s: Seq<ArtistData>) -> nat
    decreases s.len(),
{
    if s.len() == 0 {
        0
    } else {
        total_tracks(s.drop_last()) + s.last().tracks.len()
    }
}

proof fn lemma_total_tracks_update(s: Seq<ArtistData>, k: int, a: ArtistData)
    requires
        0 <= k < s.len(),
    ensures
        total_tracks(s.update(k, a)) == total_tracks(s) - s[k].tracks.len() + a.tracks.len(),
    decreases s.len(),
{
    let u = s.update(k, a);
    if k == s.len() - 1 {
        assert(u.drop_last() =~= s.drop_last());
        assert(u.last() == a);
    } else {
        assert(u.drop_last() =~= s.drop_last().update(k, a));
        assert(u.last() == s.last());
        lemma_total_tracks_update(s.drop_last(), k, a);
    }
}

proof fn lemma_total_tracks_push(s: Seq<ArtistData>, a: ArtistData)
    ensures
        total_tracks(s.push(a)) == total_tracks(s) + a.tracks.len(),
{
    assert(s.push(a).drop_last() =~= s);
}

/// Adding one entry to an index with unique ids keeps the ids unique and
/// grows the sum of the bucket sizes by exactly one.
pub proof fn lemma_index_add_one(s: Seq<ArtistData>, aid: Seq<char>, tid: Seq<char>)
    requires
        unique_ids(s),
    ensures
        unique_ids(index_add(s, aid, tid)),
        total_tracks(index_add(s, aid, tid)) == total_tracks(s) + 1,
        contains_artist(index_add(s, aid, tid), aid),
    decreases s.len(),
{
    let t = index_add(s, aid, tid);
    if contains_artist(s, aid) {
        let k = artist_pos(s, aid);
        let a = ArtistData { tracks: s[k].tracks.push(tid), ..s[k] };
        lemma_total_tracks_update(s, k, a);
        assert(t[k].id == aid);
        assert(contains_artist(t, aid));
    } else {
        let a = ArtistData { id: aid, genres: Seq::empty(), tracks: seq![tid] };
        lemma_total_tracks_push(s, a);
        assert(t[s.len() as int].id == aid);
        assert(contains_artist(t, aid));
    }
}

/// Law: the index built from a list of fetched entries attributes every entry
/// exactly once — the bucket sizes across all artists sum to the number of
/// entries — and never holds two buckets for one artist id.
pub proof fn lemma_index_counts_entries(entries: Seq<EntryData>)
    ensures
        unique_ids(index_of_entries(entries)),
        total_tracks(index_of_entries(entries)) == entries.len(),
    decreases entries.len(),
{
    if entries.len() > 0 {
        lemma_index_counts_entries(entries.drop_last());
        lemma_index_add_one(
            index_of_entries(entries.drop_last()),
            entries.last().artist_id,
            entries.last().track_id,
        );
    }
}

/// The artist index under construction. The buckets carry no genre labels;
/// those are filled in by the resolver once fetching is done.
pub struct ArtistIndex {
    entries: Vec<Artist>,
}

impl View for ArtistIndex {
    type V = Seq<ArtistData>;

    closed spec fn view(&self) -> Seq<ArtistData> {
        self.entries.deep_view()
    }
}

impl ArtistIndex {
    /// The index is well-formed when no artist id repeats.
    pub open spec fn wf(&self) -> bool {
        unique_ids(self@)
    }

    /// An empty index.
    pub fn new() -> (idx: ArtistIndex)
        ensures
            idx.wf(),
            idx@ == Seq::<ArtistData>::empty(),
    {
        let idx = ArtistIndex { entries: Vec::new() };
        proof {
            assert(idx@ =~= Seq::<ArtistData>::empty());
        }
        idx
    }

    /// How many distinct artists the index holds.
    pub fn artist_count(&self) -> (n: usize)
        ensures
            n == self@.len(),
    {
        self.entries.len()
    }

    /// Records one fetched saved track under its primary artist.
    pub fn add_entry(&mut self, artist_id: &String, track_id: String)
        requires
            old(self).wf(),
        ensures
            final(self).wf(),
            final(self)@ == index_add(old(self)@, artist_id@, track_id@),
    {
        let ghost s = self@;
        let n = self.entries.len();
        let mut k: usize = 0;
        while k < n
            invariant
                n == self.entries@.len(),
                s == self.entries.deep_view(),
                s == old(self)@,
                unique_ids(s),
                k <= n,
                forall|m: int| 0 <= m < k ==> #[trigger] s[m].id != artist_id@,
            decreases n - k,
        {
            if self.entries[k].id == *artist_id {
                proof {
                    assert(s[k as int].id == artist_id@);
                    assert(contains_artist(s, artist_id@));
                    let p = artist_pos(s, artist_id@);
                    assert(0 <= p < s.len() && s[p].id == artist_id@);
                    assert(p == k as int);
                }
                let ghost prev = self.entries@;
                let a = &mut self.entries[k];
                a.tracks.push(track_id);
                proof {
                    let t = index_add(s, artist_id@, track_id@);
                    assert forall|m: int| 0 <= m < t.len() implies #[trigger] self.entries.deep_view()[m]
                        == t[m] by {
                        if m == k as int {
                            let nt = self.entries@[m].tracks;
                            assert(nt@ == prev[m].tracks@.push(track_id));
                            assert forall|j: int| 0 <= j < nt@.len() implies #[trigger] nt.deep_view()[j]
                                == s[m].tracks.push(track_id@)[j] by {
                                if j < prev[m].tracks@.len() {
                                    assert(nt@[j] == prev[m].tracks@[j]);
                                    assert(s[m].tracks[j] == prev[m].tracks@[j]@);
                                }
                            }
                            assert(nt.deep_view() =~= s[m].tracks.push(track_id@));
                            assert(self.entries@[m].id == prev[m].id);
                            assert(self.entries@[m].genres == prev[m].genres);
                        } else {
                            assert(self.entries@[m] == prev[m]);
                        }
                    }
                    assert(self@ =~= t);
                }
                return ;
            }
            k = k + 1;
        }
        let ghost prev = self.entries@;
        let mut a = Artist::new(artist_id.clone());
        a.tracks.push(track_id);
        self.entries.push(a);
        proof {
            assert(!contains_artist(s, artist_id@));
            let t = index_add(s, artist_id@, track_id@);
            assert(a@.tracks =~= seq![track_id@]);
            assert forall|m: int| 0 <= m < t.len() implies #[trigger] self.entries.deep_view()[m]
                == t[m] by {
                if m < s.len() {
                    assert(self.entries@[m] == prev[m]);
                }
            }
            assert(self@ =~= t);
        }
    }

    /// Hands the buckets out as a list of artists, ready for genre resolution.
    pub fn into_artists(self) -> (artists: Vec<Artist>)
        ensures
            artists.deep_view() == self@,
    {
        self.entries
    }
}

/// The sequential aggregator: builds the whole index from an already fetched
/// list of entries, first to last.
pub fn build_index(entries: &Vec<TrackEntry>) -> (idx: ArtistIndex)
    ensures
        idx.wf(),
        idx@ == index_of_entries(entries.deep_view()),
{
    let mut idx = ArtistIndex::new();
    let mut i: usize = 0;
    proof {
        assert(entries.deep_view().subrange(0, 0) =~= Seq::<EntryData>::empty());
    }
    while i < entries.len()
        invariant
            i <= entries@.len(),
            idx.wf(),
            idx@ == index_of_entries(entries.deep_view().subrange(0, i as int)),
        decreases entries@.len() - i,
    {
        let e = &entries[i];
        let tid = e.track_id.clone();
        idx.add_entry(&e.artist_id, tid);
        proof {
            let dv = entries.deep_view();
            let pre = dv.subrange(0, i as int);
            let post = dv.subrange(0, i + 1);
            assert(post.drop_last() =~= pre);
            assert(post.last() == dv[i as int]);
        }
        i = i + 1;
    }
    proof {
        assert(entries.deep_view().subrange(0, entries@.len() as int) =~= entries.deep_view());
    }
    idx
}

} // verus!
