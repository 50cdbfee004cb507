use playlist_maker::index::{build_index, ArtistIndex, TrackEntry};

fn entry(artist: &str, track: &str) -> TrackEntry {
    TrackEntry { artist_id: artist.to_string(), track_id: track.to_string() }
}

#[test]
fn bucket_sizes_sum_to_entry_count() {
    let entries = vec![
        entry("a1", "t1"),
        entry("a2", "t2"),
        entry("a1", "t3"),
        entry("a3", "t4"),
        entry("a1", "t5"),
    ];
    let n = entries.len();
    let idx = build_index(&entries);
    let artists = idx.into_artists();
    let total: usize = artists.iter().map(|a| a.tracks.len()).sum();
    assert_eq!(total, n);
}

#[test]
fn one_bucket_per_artist_in_first_seen_order() {
    let entries = vec![entry("a2", "t1"), entry("a1", "t2"), entry("a2", "t3")];
    let idx = build_index(&entries);
    assert_eq!(idx.artist_count(), 2);
    let artists = idx.into_artists();
    assert_eq!(artists[0].id, "a2");
    assert_eq!(artists[0].tracks, vec!["t1".to_string(), "t3".to_string()]);
    assert_eq!(artists[1].id, "a1");
    assert_eq!(artists[1].tracks, vec!["t2".to_string()]);
}

#[test]
fn fresh_buckets_carry_no_genres() {
    let idx = build_index(&vec![entry("a1", "t1")]);
    let artists = idx.into_artists();
    assert_eq!(artists.len(), 1);
    assert!(artists[0].genres.is_empty());
}

#[test]
fn add_entry_matches_sequential_build() {
    let mut idx = ArtistIndex::new();
    idx.add_entry(&"a1".to_string(), "t1".to_string());
    idx.add_entry(&"a2".to_string(), "t2".to_string());
    idx.add_entry(&"a1".to_string(), "t3".to_string());
    let artists = idx.into_artists();
    assert_eq!(artists.len(), 2);
    assert_eq!(artists[0].id, "a1");
    assert_eq!(artists[0].tracks, vec!["t1".to_string(), "t3".to_string()]);
    assert_eq!(artists[1].id, "a2");
    assert_eq!(artists[1].tracks, vec!["t2".to_string()]);
}

#[test]
fn empty_index_has_no_artists() {
    let entries: Vec<TrackEntry> = Vec::new();
    let idx = build_index(&entries);
    assert_eq!(idx.artist_count(), 0);
}
