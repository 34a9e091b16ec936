use arq_transfer::chunk::{count_chunks, split};

#[test]
fn count_rounds_up() {
    assert_eq!(count_chunks(256, 64), 4);
    assert_eq!(count_chunks(257, 64), 5);
    assert_eq!(count_chunks(255, 64), 4);
    assert_eq!(count_chunks(64, 64), 1);
    assert_eq!(count_chunks(1, 64), 1);
    assert_eq!(count_chunks(0, 64), 0);
    assert_eq!(count_chunks(5, 1), 5);
}

#[test]
fn count_of_largest_length_does_not_overflow() {
    assert_eq!(count_chunks(usize::MAX, 1), usize::MAX);
    assert_eq!(count_chunks(usize::MAX, usize::MAX), 1);
    assert_eq!(count_chunks(usize::MAX, 2), usize::MAX / 2 + 1);
}

#[test]
fn split_cuts_from_the_left() {
    let data: Vec<u8> = (0..10u8).collect();
    let chunks = split(&data, 4);
    assert_eq!(chunks, vec![vec![0, 1, 2, 3], vec![4, 5, 6, 7], vec![8, 9]]);
}

#[test]
fn split_of_exact_multiple_has_no_short_chunk() {
    let data: Vec<u8> = (0..8u8).collect();
    let chunks = split(&data, 4);
    assert_eq!(chunks, vec![vec![0, 1, 2, 3], vec![4, 5, 6, 7]]);
}

#[test]
fn split_of_nothing_is_nothing() {
    let chunks = split(&[], 4);
    assert!(chunks.is_empty());
}

#[test]
fn split_with_large_packet_is_one_chunk() {
    let data: Vec<u8> = vec![1, 2, 3];
    assert_eq!(split(&data, usize::MAX), vec![vec![1, 2, 3]]);
}

#[test]
fn split_agrees_with_std_chunks() {
    let data: Vec<u8> = (0..=255u8).cycle().take(1000).collect();
    for size in 1..70usize {
        let expected: Vec<Vec<u8>> = data.chunks(size).map(|c| c.to_vec()).collect();
        assert_eq!(split(&data, size), expected);
        assert_eq!(count_chunks(data.len(), size), expected.len());
    }
}

#[test]
fn chunks_join_back_to_the_stream() {
    let data: Vec<u8> = (0..=255u8).collect();
    for size in [1usize, 2, 3, 64, 100, 255, 256, 257] {
        let joined: Vec<u8> = split(&data, size).concat();
        assert_eq!(joined, data);
    }
}
