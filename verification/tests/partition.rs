use dp_regression::partition::{chunk_bounds, count_chunks, partition};

#[test]
fn partition_into_full_chunks() {
    let data = [1, 10, 2, 20, 3, 30, 4, 40];
    assert_eq!(partition(&data, 2), vec![vec![1, 10, 2, 20], vec![3, 30, 4, 40]]);
}

#[test]
fn partition_with_a_shorter_last_chunk() {
    let data = [1, 10, 2, 20, 3, 30, 4, 40, 5, 50];
    assert_eq!(
        partition(&data, 2),
        vec![vec![1, 10, 2, 20], vec![3, 30, 4, 40], vec![5, 50]]
    );
}

#[test]
fn partition_by_single_pairs() {
    let data = [1, 10, 2, 20, 3, 30];
    assert_eq!(partition(&data, 1), vec![vec![1, 10], vec![2, 20], vec![3, 30]]);
}

#[test]
fn partition_of_nothing() {
    let nothing: [i64; 0] = [];
    assert_eq!(partition(&nothing, 3), Vec::<Vec<i64>>::new());
}

#[test]
fn partition_with_a_chunk_larger_than_the_data() {
    let data = [1, 10, 2, 20];
    assert_eq!(partition(&data, 100), vec![vec![1, 10, 2, 20]]);
    assert_eq!(partition(&data, usize::MAX), vec![vec![1, 10, 2, 20]]);
}

#[test]
fn chunks_put_end_to_end_are_the_data() {
    let data: Vec<i64> = (0..47).collect();
    for pairs in 1..30 {
        let chunks = partition(&data, pairs);
        let joined: Vec<i64> = chunks.iter().flatten().copied().collect();
        assert_eq!(joined, data);
        assert_eq!(chunks.len(), (data.len() + 2 * pairs - 1) / (2 * pairs));
    }
}

#[test]
fn no_chunk_splits_a_pair() {
    let data: Vec<i64> = (0..46).collect();
    for pairs in 1..30 {
        let chunks = partition(&data, pairs);
        for (index, chunk) in chunks.iter().enumerate() {
            assert_eq!(chunk.len() % 2, 0);
            assert!(chunk.len() <= 2 * pairs);
            assert!(!chunk.is_empty());
            if index + 1 < chunks.len() {
                assert_eq!(chunk.len(), 2 * pairs);
            }
            // A chunk starts with an x and ends with the y that goes with it.
            assert_eq!(chunk[0] % 2, 0);
            assert_eq!(chunk[chunk.len() - 1], chunk[chunk.len() - 2] + 1);
        }
    }
}

#[test]
fn chunk_bounds_name_each_chunk() {
    assert_eq!(chunk_bounds(10, 2, 0), (0, 4));
    assert_eq!(chunk_bounds(10, 2, 1), (4, 8));
    assert_eq!(chunk_bounds(10, 2, 2), (8, 10));
    assert_eq!(chunk_bounds(10, 2, 3), (10, 10));
    assert_eq!(chunk_bounds(10, 2, usize::MAX), (10, 10));
    assert_eq!(chunk_bounds(0, 2, 0), (0, 0));
}

#[test]
fn chunk_bounds_with_huge_chunks() {
    assert_eq!(chunk_bounds(10, usize::MAX, 0), (0, 10));
    assert_eq!(chunk_bounds(10, usize::MAX, 1), (10, 10));
    assert_eq!(chunk_bounds(10, 5, 0), (0, 10));
    assert_eq!(chunk_bounds(10, 5, 1), (10, 10));
    assert_eq!(chunk_bounds(11, 5, 1), (10, 11));
}

#[test]
fn chunk_bounds_agree_with_partition() {
    let data: Vec<i64> = (0..23).collect();
    let chunks = partition(&data, 3);
    for (index, chunk) in chunks.iter().enumerate() {
        let (start, end) = chunk_bounds(data.len(), 3, index);
        assert_eq!(chunk[..], data[start..end]);
    }
    assert_eq!(chunk_bounds(data.len(), 3, chunks.len()), (23, 23));
}

#[test]
fn count_chunks_rounds_up() {
    assert_eq!(count_chunks(0, 2), 0);
    assert_eq!(count_chunks(1, 2), 1);
    assert_eq!(count_chunks(4, 2), 1);
    assert_eq!(count_chunks(5, 2), 2);
    assert_eq!(count_chunks(8, 2), 2);
    assert_eq!(count_chunks(10, 2), 3);
    assert_eq!(count_chunks(2800, 700), 2);
    assert_eq!(count_chunks(10, usize::MAX), 1);
    assert_eq!(count_chunks(usize::MAX, 1), usize::MAX / 2 + 1);
    assert_eq!(count_chunks(usize::MAX, usize::MAX / 2), 2);
}

#[test]
fn count_chunks_agrees_with_partition() {
    let data: Vec<i64> = (0..61).collect();
    for pairs in 1..40 {
        assert_eq!(count_chunks(data.len(), pairs), partition(&data, pairs).len());
    }
}
