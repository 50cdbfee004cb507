use playlist_maker::errors::PipelineError;
use playlist_maker::fetch::{next_offset, PAGE_SIZE};
use playlist_maker::genre::build_genre_index;
use playlist_maker::index::{build_index, TrackEntry};
use playlist_maker::model::Artist;
use playlist_maker::naming::{playlist_description, playlist_name};
use playlist_maker::plan::{plan_submission, BATCH_LIMIT};
use playlist_maker::resolver::{finalize_genres, LookupOutcome, Resolver};

#[test]
fn full_run_over_250_tracks_and_5_artists() {
    // 250 saved tracks spread over 5 artists; the artist carrying the chosen
    // genre contributes 40 of them.
    let sizes = [60usize, 40, 70, 50, 30];
    let genres = ["electro", "danish pop", "jazz", "rock", "ambient"];
    let mut entries: Vec<TrackEntry> = Vec::new();
    let mut t = 0;
    for (a, n) in sizes.iter().enumerate() {
        for _ in 0..*n {
            entries.push(TrackEntry {
                artist_id: format!("artist{}", a),
                track_id: format!("track{}", t),
            });
            t += 1;
        }
    }
    assert_eq!(entries.len(), 250);

    let idx = build_index(&entries);
    assert_eq!(idx.artist_count(), 5);
    let mut artists = idx.into_artists();
    let total: usize = artists.iter().map(|a| a.tracks.len()).sum();
    assert_eq!(total, 250);

    // Each artist resolves on the first lookup to its one genre; the caller
    // applies the sentinel substitution before recording the set.
    for (a, artist) in artists.iter_mut().enumerate() {
        let mut r = Resolver::new(1);
        r.on_lookup(LookupOutcome::Genres(vec![genres[a].to_string()]));
        artist.set_genres(finalize_genres(r.result().clone()));
    }

    let gi = build_genre_index(&artists);
    let plan = plan_submission(&gi, &"danish pop".to_string(), BATCH_LIMIT).unwrap();
    assert_eq!(plan.batches.len(), 1);
    assert_eq!(plan.batches[0].len(), 40);
    assert!(plan.name.contains("DANISH POP"));
    assert_eq!(plan.name, "Programatically generated [DANISH POP] Playlist");
    assert!(plan.description.contains("[DANISH POP]"));
}

#[test]
fn plan_for_absent_genre_is_not_found() {
    let artists = vec![Artist {
        id: "a1".to_string(),
        genres: vec!["rock".to_string()],
        tracks: vec!["t1".to_string()],
    }];
    let gi = build_genre_index(&artists);
    let err = plan_submission(&gi, &"jazz".to_string(), BATCH_LIMIT).unwrap_err();
    assert_eq!(err, PipelineError::NotFound);
}

#[test]
fn artist_without_genres_ends_in_unknown_bucket_end_to_end() {
    let entries = vec![
        TrackEntry { artist_id: "a1".to_string(), track_id: "t1".to_string() },
        TrackEntry { artist_id: "a2".to_string(), track_id: "t2".to_string() },
    ];
    let mut artists = build_index(&entries).into_artists();
    artists[0].set_genres(finalize_genres(Vec::new()));
    artists[1].set_genres(finalize_genres(vec!["rock".to_string()]));
    let gi = build_genre_index(&artists);
    let plan = plan_submission(&gi, &"unknown genre".to_string(), BATCH_LIMIT).unwrap();
    assert_eq!(plan.batches.len(), 1);
    assert_eq!(plan.batches[0], vec!["t1".to_string()]);
}

#[test]
fn playlist_naming_uppercases_the_label() {
    let name = playlist_name(&"danish pop".to_string());
    assert_eq!(name, "Programatically generated [DANISH POP] Playlist");
    let description = playlist_description(&"indie".to_string());
    assert!(description.starts_with("This playlist contains all the [INDIE] songs"));
}

#[test]
fn manual_paging_advances_until_an_empty_page() {
    assert_eq!(next_offset(0, PAGE_SIZE), Some(100));
    assert_eq!(next_offset(100, PAGE_SIZE), Some(200));
    assert_eq!(next_offset(200, 37), Some(237));
    assert_eq!(next_offset(237, 0), None);
}
