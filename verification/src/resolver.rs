//! The per-artist genre resolver: one metadata lookup, retried after a fixed
//! backoff for as long as it fails, with every failure treated as a
//! rate-limit signal. The network call and the sleep are performed by the
//! caller; this state machine decides what to do next, counts the lookups and
//! sleeps, and hands back the first successful response's genre set
//! unmodified. Substituting the sentinel label for an empty set is the
//! caller's duty, done through [`finalize_genres`].
use vstd::prelude::*;

use crate::model::{unknown_genre, unknown_genre_label};

verus! {

/// The fixed backoff, in milliseconds, slept after a failed lookup.
pub const DEFAULT_BACKOFF_MILLIS: u64 = 80000;

/// What the caller must do next for this artist.
#[derive(Clone, Copy, Debug, PartialEq, Eq, Structural)]
pub enum ResolveAction {
    /// Issue the artist-metadata lookup.
    Lookup,
    /// Sleep this many milliseconds, then report back.
    Sleep { millis: u64 },
    /// The genre set is resolved; nothing is left to do.
    Done,
}

/// What one upstream lookup produced.
pub enum LookupOutcome {
    /// The lookup succeeded with these genre labels.
    Genres(Vec<String>),
    /// The lookup failed, for whatever reason.
    Failed,
}

/// Where the resolver stands for one artist.
#[derive(Clone, Copy, Debug, PartialEq, Eq, Structural)]
pub enum ResolverPhase {
    /// A lookup is owed.
    Requesting,
    /// The last lookup failed; the backoff sleep is owed.
    Sleeping,
    /// The genre set is resolved.
    Finished,
}

/// The resolved genre set: the labels as returned when there are any, the
/// sentinel label alone when the upstream returned none.
pub open spec fn resolved_spec(gs: Seq<Seq<char>>) -> Seq<Seq<char>> {
    if gs.len() == 0 {
        seq![unknown_genre()]
    } else {
        gs
    }
}

/// Substitutes the sentinel label for an empty genre set and leaves any other
/// set unchanged.
pub fn finalize_genres(genres: Vec<String>) -> (r: Vec<String>)
    ensures
        r.deep_view() == resolved_spec(genres.deep_view()),
{
    if genres.len() == 0 {
        let mut r: Vec<String> = Vec::new();
        r.push(unknown_genre_label());
        proof {
            assert(r.deep_view() =~= seq![unknown_genre()]);
        }
        r
    } else {
        genres
    }
}

/// The retry state machine for one artist. It never gives up: a failed
/// lookup always leads to a sleep and another lookup, as the source policy
/// prescribes, so a permanently failing upstream retries forever.
pub struct Resolver {
    /// How long to sleep after a failed lookup, in milliseconds.
    pub backoff_millis: u64,
    /// Where the resolver stands.
    pub phase: ResolverPhase,
    /// The resolved genre set; meaningful once `phase` is `Finished`.
    pub genres: Vec<String>,
    /// How many lookups have been answered.
    pub lookups: u64,
    /// How many backoff sleeps have completed.
    pub sleeps: u64,
}

impl Resolver {
    /// A fresh resolver that owes its first lookup.
    pub fn new(backoff_millis: u64) -> (r: Resolver)
        ensures
            r.backoff_millis == backoff_millis,
            r.phase == ResolverPhase::Requesting,
            r.lookups == 0,
            r.sleeps == 0,
    {
        Resolver {
            backoff_millis,
            phase: ResolverPhase::Requesting,
            genres: Vec::new(),
            lookups: 0,
            sleeps: 0,
        }
    }

    /// What the caller must do next.
    pub fn next_action(&self) -> (a: ResolveAction)
        ensures
            self.phase == ResolverPhase::Requesting ==> a == ResolveAction::Lookup,
            self.phase == ResolverPhase::Sleeping ==> a == (ResolveAction::Sleep {
                millis: self.backoff_millis,
            }),
            self.phase == ResolverPhase::Finished ==> a == ResolveAction::Done,
    {
        match self.phase {
            ResolverPhase::Requesting => ResolveAction::Lookup,
            ResolverPhase::Sleeping => ResolveAction::Sleep { millis: self.backoff_millis },
            ResolverPhase::Finished => ResolveAction::Done,
        }
    }

    /// Records what the owed lookup produced. A failure of any kind is taken
    /// for rate limiting and leads to the backoff sleep; a success resolves
    /// the artist with the returned genre set as it came, possibly empty.
    pub fn on_lookup(&mut self, outcome: LookupOutcome)
        requires
            old(self).phase == ResolverPhase::Requesting,
            old(self).lookups < u64::MAX,
        ensures
            final(self).backoff_millis == old(self).backoff_millis,
            final(self).lookups == old(self).lookups + 1,
            final(self).sleeps == old(self).sleeps,
            outcome matches LookupOutcome::Failed ==> final(self).phase
                == ResolverPhase::Sleeping && final(self).genres == old(self).genres,
            outcome matches LookupOutcome::Genres(g) ==> final(self).phase
                == ResolverPhase::Finished && final(self).genres == g,
    {
        self.lookups = self.lookups + 1;
        match outcome {
            LookupOutcome::Genres(g) => {
                self.genres = g;
                self.phase = ResolverPhase::Finished;
            },
            LookupOutcome::Failed => {
                self.phase = ResolverPhase::Sleeping;
            },
        }
    }

    /// Records that the owed backoff sleep has completed: the next lookup is
    /// owed again.
    pub fn on_slept(&mut self)
        requires
            old(self).phase == ResolverPhase::Sleeping,
            old(self).sleeps < u64::MAX,
        ensures
            final(self).backoff_millis == old(self).backoff_millis,
            final(self).phase == ResolverPhase::Requesting,
            final(self).lookups == old(self).lookups,
            final(self).sleeps == old(self).sleeps + 1,
            final(self).genres == old(self).genres,
    {
        self.sleeps = self.sleeps + 1;
        self.phase = ResolverPhase::Requesting;
    }

    /// The resolved genre set, exactly as the upstream returned it; it may
    /// be empty, and [`finalize_genres`] then substitutes the sentinel.
    pub fn result(&self) -> (r: &Vec<String>)
        requires
            self.phase == ResolverPhase::Finished,
        ensures
            r == &self.genres,
    {
        &self.genres
    }
}

} // verus!
