//! The data the pipeline works on: artists with their genre labels and the
//! saved tracks attributed to them. Identifiers are opaque strings; nothing
//! here touches the network or the disk.
use vstd::prelude::*;

verus! {

/// The genre label substituted when an artist carries no genre tags.
pub open spec fn unknown_genre() -> Seq<char> {
    "unknown genre"@
}

/// The sentinel label as an owned string.
pub fn unknown_genre_label() -> (r: String)
    ensures
        r@ == unknown_genre(),
{
    "unknown genre".to_owned()
}

/// An artist as the pipeline sees it: an opaque identifier, the genre labels
/// the upstream service attaches to the artist, and the ids of the user's
/// saved tracks whose primary artist it is.
#[derive(Debug, Clone)]
pub struct Artist {
    pub id: String,
    pub genres: Vec<String>,
    pub tracks: Vec<String>,
}

/// The mathematical content of an [`Artist`].
pub struct ArtistData {
    pub id: Seq<char>,
    pub genres: Seq<Seq<char>>,
    pub tracks: Seq<Seq<char>>,
}

impl View for Artist {
    type V = ArtistData;

    open spec fn view(&self) -> ArtistData {
        ArtistData {
            id: self.id@,
            genres: self.genres.deep_view(),
            tracks: self.tracks.deep_view(),
        }
    }
}

impl DeepView for Artist {
    type V = ArtistData;

    open spec fn deep_view(&self) -> ArtistData {
        self.view()
    }
}

impl Artist {
    /// An artist with no genre labels and no tracks yet.
    pub fn new(id: String) -> (a: Artist)
        ensures
            a@.id == id@,
            a@.genres == Seq::<Seq<char>>::empty(),
            a@.tracks == Seq::<Seq<char>>::empty(),
    {
        let a = Artist { id, genres: Vec::new(), tracks: Vec::new() };
        proof {
            assert(a@.genres =~= Seq::<Seq<char>>::empty());
            assert(a@.tracks =~= Seq::<Seq<char>>::empty());
        }
        a
    }

    /// Replaces the artist's genre labels; the identifier and the attributed
    /// tracks stay as they were.
    pub fn set_genres(&mut self, genres: Vec<String>)
        ensures
            final(self)@.id == old(self)@.id,
            final(self)@.tracks == old(self)@.tracks,
            final(self)@.genres == genres.deep_view(),
    {
        self.genres = genres;
    }
}

} // verus!
