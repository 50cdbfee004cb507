//! Planning the playlist submission: the operator picks a genre label, and
//! the plan holds the generated title and description together with the
//! label's tracks partitioned into batches the upstream write call accepts.
use vstd::prelude::*;

use crate::batch::{batch_count, joined, partition_batches};
use crate::errors::PipelineError;
use crate::genre::{bucket_tracks, contains_genre, GenreIndex};
use crate::naming::{description_spec, name_spec, playlist_description, playlist_name};

verus! {

/// The most track references one playlist-write call accepts, as the
/// original submitter batched them.
pub const BATCH_LIMIT: usize = 99;

/// A planned submission: the playlist title and description, and the track
/// batches to add, in order.
#[derive(Debug)]
pub struct SubmissionPlan {
    pub name: String,
    pub description: String,
    pub batches: Vec<Vec<String>>,
}

/// Plans the playlist for `genre`: its title and description reference the
/// label, and the label's tracks are split into consecutive batches of at
/// most `batch_limit` ids, all but the last exactly full. `NotFound` comes
/// exactly when no artist carries the label.
pub fn plan_submission(gi: &GenreIndex, genre: &String, batch_limit: usize) -> (r: Result<
    SubmissionPlan,
    PipelineError,
>)
    requires
        gi.wf(),
        batch_limit >= 1,
    ensures
        match r {
            Ok(p) => {
                &&& contains_genre(gi@, genre@)
                &&& p.name@ == name_spec(genre@)
                &&& p.description@ == description_spec(genre@)
                &&& joined(p.batches.deep_view()) == bucket_tracks(gi@, genre@)
                &&& p.batches.deep_view().len() == batch_count(
                    bucket_tracks(gi@, genre@).len(),
                    batch_limit as nat,
                )
                &&& forall|k: int|
                    0 <= k < p.batches.deep_view().len()
                        ==> #[trigger] p.batches.deep_view()[k].len() <= batch_limit
                &&& forall|k: int|
                    0 <= k < p.batches.deep_view().len() - 1
                        ==> #[trigger] p.batches.deep_view()[k].len() == batch_limit
            },
            Err(e) => e == PipelineError::NotFound && !contains_genre(gi@, genre@),
        },
{
    let tracks = match gi.lookup(genre) {
        Ok(t) => t,
        Err(e) => {
            return Err(PipelineError::NotFound);
        },
    };
    let batches = partition_batches(tracks, batch_limit);
    let name = playlist_name(genre);
    let description = playlist_description(genre);
    Ok(SubmissionPlan { name, description, batches })
}

} // verus!
