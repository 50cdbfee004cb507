use playlist_maker::errors::PipelineError;
use playlist_maker::genre::build_genre_index;
use playlist_maker::model::Artist;

fn artist(id: &str, genres: &[&str], tracks: &[&str]) -> Artist {
    Artist {
        id: id.to_string(),
        genres: genres.iter().map(|g| g.to_string()).collect(),
        tracks: tracks.iter().map(|t| t.to_string()).collect(),
    }
}

#[test]
fn multi_genre_artist_appears_under_both_genres() {
    let artists = vec![
        artist("a1", &["g1", "g2"], &["t1", "t2"]),
        artist("a2", &["g1"], &["t3"]),
    ];
    let gi = build_genre_index(&artists);
    let g1 = gi.lookup(&"g1".to_string()).unwrap();
    let g2 = gi.lookup(&"g2".to_string()).unwrap();
    assert_eq!(g1, &vec!["t1".to_string(), "t2".to_string(), "t3".to_string()]);
    assert_eq!(g2, &vec!["t1".to_string(), "t2".to_string()]);
}

#[test]
fn unknown_genre_bucket_is_exclusive() {
    let artists = vec![
        artist("a1", &["unknown genre"], &["t1", "t2"]),
        artist("a2", &["rock"], &["t3"]),
    ];
    let gi = build_genre_index(&artists);
    let unknown = gi.lookup(&"unknown genre".to_string()).unwrap();
    assert_eq!(unknown, &vec!["t1".to_string(), "t2".to_string()]);
    let rock = gi.lookup(&"rock".to_string()).unwrap();
    assert!(!rock.contains(&"t1".to_string()));
    assert!(!rock.contains(&"t2".to_string()));
}

#[test]
fn lookup_of_absent_label_is_not_found() {
    let artists = vec![artist("a1", &["rock"], &["t1"])];
    let gi = build_genre_index(&artists);
    assert_eq!(gi.lookup(&"jazz".to_string()).unwrap_err(), PipelineError::NotFound);
}

#[test]
fn shared_genre_collects_tracks_in_artist_order() {
    let artists = vec![
        artist("a1", &["shared"], &["t1"]),
        artist("a2", &["other"], &["t2"]),
        artist("a3", &["shared"], &["t3", "t4"]),
    ];
    let gi = build_genre_index(&artists);
    let shared = gi.lookup(&"shared".to_string()).unwrap();
    assert_eq!(
        shared,
        &vec!["t1".to_string(), "t3".to_string(), "t4".to_string()]
    );
}

#[test]
fn summary_lists_each_genre_with_its_count() {
    let artists = vec![
        artist("a1", &["g1", "g2"], &["t1", "t2"]),
        artist("a2", &["g1"], &["t3"]),
    ];
    let gi = build_genre_index(&artists);
    let summary = gi.summary();
    assert_eq!(summary.len(), 2);
    assert_eq!(summary[0], ("g1".to_string(), 3));
    assert_eq!(summary[1], ("g2".to_string(), 2));
}

#[test]
fn empty_artist_list_gives_empty_index() {
    let artists: Vec<Artist> = Vec::new();
    let gi = build_genre_index(&artists);
    assert_eq!(gi.summary().len(), 0);
}
