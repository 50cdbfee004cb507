use playlist_maker::resolver::{
    finalize_genres, LookupOutcome, ResolveAction, Resolver, ResolverPhase, DEFAULT_BACKOFF_MILLIS,
};

fn labels(gs: &[&str]) -> Vec<String> {
    gs.iter().map(|g| g.to_string()).collect()
}

#[test]
fn two_failures_then_success_makes_three_lookups_and_two_sleeps() {
    let mut r = Resolver::new(DEFAULT_BACKOFF_MILLIS);
    let mut lookups = 0;
    let mut sleeps = 0;
    let mut outcomes = vec![
        LookupOutcome::Failed,
        LookupOutcome::Failed,
        LookupOutcome::Genres(labels(&["rock"])),
    ]
    .into_iter();
    loop {
        match r.next_action() {
            ResolveAction::Lookup => {
                lookups += 1;
                r.on_lookup(outcomes.next().unwrap());
            }
            ResolveAction::Sleep { millis } => {
                assert_eq!(millis, DEFAULT_BACKOFF_MILLIS);
                sleeps += 1;
                r.on_slept();
            }
            ResolveAction::Done => break,
        }
    }
    assert_eq!(lookups, 3);
    assert_eq!(sleeps, 2);
    assert_eq!(r.lookups, 3);
    assert_eq!(r.sleeps, 2);
    assert_eq!(r.result(), &labels(&["rock"]));
}

#[test]
fn sustained_failure_keeps_retrying() {
    let mut r = Resolver::new(5);
    for _ in 0..10 {
        assert_eq!(r.next_action(), ResolveAction::Lookup);
        r.on_lookup(LookupOutcome::Failed);
        assert_eq!(r.next_action(), ResolveAction::Sleep { millis: 5 });
        r.on_slept();
    }
    assert_eq!(r.phase, ResolverPhase::Requesting);
    assert_eq!(r.lookups, 10);
    assert_eq!(r.sleeps, 10);
}

#[test]
fn immediate_success_makes_one_lookup_and_no_sleep() {
    let mut r = Resolver::new(DEFAULT_BACKOFF_MILLIS);
    assert_eq!(r.next_action(), ResolveAction::Lookup);
    r.on_lookup(LookupOutcome::Genres(labels(&["pop", "indie"])));
    assert_eq!(r.next_action(), ResolveAction::Done);
    assert_eq!(r.lookups, 1);
    assert_eq!(r.sleeps, 0);
    assert_eq!(r.result(), &labels(&["pop", "indie"]));
}

#[test]
fn empty_genre_set_comes_back_unmodified() {
    let mut r = Resolver::new(DEFAULT_BACKOFF_MILLIS);
    r.on_lookup(LookupOutcome::Genres(Vec::new()));
    assert_eq!(r.result(), &Vec::<String>::new());
    // Substituting the sentinel is the caller's step.
    assert_eq!(finalize_genres(r.result().clone()), labels(&["unknown genre"]));
}

#[test]
fn finalize_substitutes_sentinel_only_when_empty() {
    assert_eq!(finalize_genres(Vec::new()), labels(&["unknown genre"]));
    assert_eq!(finalize_genres(labels(&["jazz"])), labels(&["jazz"]));
    assert_eq!(finalize_genres(labels(&["a", "b"])), labels(&["a", "b"]));
}
