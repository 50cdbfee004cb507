//! The generated playlist title and description, both referencing the chosen
//! genre label in upper case.
use vstd::prelude::*;

use vstd::string::StringExecFns;

verus! {

/// The uppercased form of a string: what `str::to_uppercase` returns, a
/// function of the characters alone.
pub uninterp spec fn upper_of(s: Seq<char>) -> Seq<char>;

/// Relies on str::to_uppercase: the result depends on the characters alone
/// (no locale is consulted), and an empty string stays empty.
#[verifier::external_body]
fn uppercase(s: &str) -> (r: String)
    ensures
        r@ == upper_of(s@),
        s@.len() == 0 ==> r@.len() == 0,
{
    s.to_uppercase()
}

/// The title of the generated playlist for a genre label.
pub open spec fn name_spec(genre: Seq<char>) -> Seq<char> {
    "Programatically generated ["@ + upper_of(genre) + "] Playlist"@
}

/// The description of the generated playlist for a genre label.
pub open spec fn description_spec(genre: Seq<char>) -> Seq<char> {
    "This playlist contains all the ["@ + upper_of(genre)
        + "] songs extracted from a liked playlist. The content may not only contain the same genre, as the streaming service attaches a genre to an artist, and not to a song, making it difficult to properly sort."@
}

/// The playlist title referencing `genre` in upper case.
pub fn playlist_name(genre: &String) -> (r: String)
    ensures
        r@ == name_spec(genre@),
{
    let mut r = String::from_str("Programatically generated [");
    let up = uppercase(genre.as_str());
    r.append(up.as_str());
    r.append("] Playlist");
    proof {
        assert(r@ =~= name_spec(genre@));
    }
    r
}

/// The playlist description referencing `genre` in upper case.
pub fn playlist_description(genre: &String) -> (r: String)
    ensures
        r@ == description_spec(genre@),
{
    let mut r = String::from_str("This playlist contains all the [");
    let up = uppercase(genre.as_str());
    r.append(up.as_str());
    r.append(
        "] songs extracted from a liked playlist. The content may not only contain the same genre, as the streaming service attaches a genre to an artist, and not to a song, making it difficult to properly sort.",
    );
    proof {
        assert(r@ =~= description_spec(genre@));
    }
    r
}

} // verus!
