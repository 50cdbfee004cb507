use playlist_maker::batch::partition_batches;

fn ids(n: usize) -> Vec<String> {
    let mut v = Vec::new();
    for i in 0..n {
        v.push(format!("track{}", i));
    }
    v
}

#[test]
fn empty_input_yields_zero_batches() {
    let tracks: Vec<String> = Vec::new();
    let batches = partition_batches(&tracks, 100);
    assert_eq!(batches.len(), 0);
}

#[test]
fn exact_multiple_yields_only_full_batches() {
    let tracks = ids(200);
    let batches = partition_batches(&tracks, 100);
    assert_eq!(batches.len(), 2);
    assert_eq!(batches[0].len(), 100);
    assert_eq!(batches[1].len(), 100);
}

#[test]
fn remainder_goes_in_short_final_batch() {
    let tracks = ids(250);
    let batches = partition_batches(&tracks, 100);
    assert_eq!(batches.len(), 3);
    assert_eq!(batches[0].len(), 100);
    assert_eq!(batches[1].len(), 100);
    assert_eq!(batches[2].len(), 50);
}

#[test]
fn concatenation_reproduces_input_in_order() {
    let tracks = ids(250);
    let batches = partition_batches(&tracks, 99);
    let mut joined: Vec<String> = Vec::new();
    for b in &batches {
        for t in b {
            joined.push(t.clone());
        }
    }
    assert_eq!(joined, tracks);
}

#[test]
fn one_more_than_limit_spills_single_item() {
    let tracks = ids(100);
    let batches = partition_batches(&tracks, 99);
    assert_eq!(batches.len(), 2);
    assert_eq!(batches[0].len(), 99);
    assert_eq!(batches[1].len(), 1);
    assert_eq!(batches[1][0], "track99");
}

#[test]
fn limit_one_gives_singleton_batches() {
    let tracks = ids(3);
    let batches = partition_batches(&tracks, 1);
    assert_eq!(batches.len(), 3);
    for (i, b) in batches.iter().enumerate() {
        assert_eq!(b.len(), 1);
        assert_eq!(b[0], format!("track{}", i));
    }
}
