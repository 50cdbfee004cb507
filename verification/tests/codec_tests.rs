use playlist_maker::codec::{decode_snapshot, encode_snapshot};
use playlist_maker::errors::PipelineError;
use playlist_maker::model::Artist;

fn artist(id: &str, genres: &[&str], tracks: &[&str]) -> Artist {
    Artist {
        id: id.to_string(),
        genres: genres.iter().map(|g| g.to_string()).collect(),
        tracks: tracks.iter().map(|t| t.to_string()).collect(),
    }
}

fn assert_same(a: &[Artist], b: &[Artist]) {
    assert_eq!(a.len(), b.len());
    for (x, y) in a.iter().zip(b.iter()) {
        assert_eq!(x.id, y.id);
        assert_eq!(x.genres, y.genres);
        assert_eq!(x.tracks, y.tracks);
    }
}

#[test]
fn round_trip_empty_list() {
    let records: Vec<Artist> = Vec::new();
    let text = encode_snapshot(&records);
    let back = decode_snapshot(&text).unwrap();
    assert_same(&records, &back);
}

#[test]
fn round_trip_zero_one_and_many_genres() {
    let records = vec![
        artist("artist-a", &[], &["t1", "t2"]),
        artist("artist-b", &["rock"], &["t3"]),
        artist("artist-c", &["pop", "indie", "danish pop"], &[]),
    ];
    let text = encode_snapshot(&records);
    let back = decode_snapshot(&text).unwrap();
    assert_same(&records, &back);
}

#[test]
fn round_trip_keeps_delimiters_inside_strings() {
    let records = vec![artist("id:with;5:stuff", &["ge;nre", "12:34"], &["tr;ack:1"])];
    let text = encode_snapshot(&records);
    let back = decode_snapshot(&text).unwrap();
    assert_same(&records, &back);
}

#[test]
fn round_trip_non_ascii() {
    let records = vec![artist("bj\u{f6}rk", &["\u{e9}lectro"], &["\u{1f3b5} song"])];
    let text = encode_snapshot(&records);
    let back = decode_snapshot(&text).unwrap();
    assert_same(&records, &back);
}

#[test]
fn encoding_is_length_prefixed_text() {
    let records = vec![artist("ab", &["r"], &["t1", "t2"])];
    let text = encode_snapshot(&records);
    assert_eq!(text, "1;2:ab1;1:r2;2:t12:t2");
}

#[test]
fn decode_rejects_garbage() {
    assert_eq!(decode_snapshot("garbage").unwrap_err(), PipelineError::CorruptData);
    assert_eq!(decode_snapshot("").unwrap_err(), PipelineError::CorruptData);
    assert_eq!(decode_snapshot(";").unwrap_err(), PipelineError::CorruptData);
}

#[test]
fn decode_rejects_truncated_snapshot() {
    let records = vec![artist("artist-a", &["rock"], &["t1"])];
    let text = encode_snapshot(&records);
    let cut: String = text.chars().take(text.chars().count() - 1).collect();
    assert_eq!(decode_snapshot(&cut).unwrap_err(), PipelineError::CorruptData);
}

#[test]
fn decode_rejects_trailing_junk() {
    let records = vec![artist("artist-a", &["rock"], &["t1"])];
    let mut text = encode_snapshot(&records);
    text.push('x');
    assert_eq!(decode_snapshot(&text).unwrap_err(), PipelineError::CorruptData);
}

#[test]
fn decode_rejects_non_canonical_count() {
    // "01" is not the canonical decimal form of 1.
    assert_eq!(decode_snapshot("01;2:ab1;1:r0;").unwrap_err(), PipelineError::CorruptData);
}
