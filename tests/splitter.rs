use splitter::{
    concat_parts, map_sequential, reversed, split_chunks, split_map_rayon, splitter_with_rayon,
    worker_count, THRESHOLD,
};

#[test]
pub fn without_splitting() {
    let input = vec![10, 20, 30, 40, 50];

    let modifier = |x: u32| -> String { x.to_string() };

    let result_rayon = splitter_with_rayon(input.clone(), modifier);
    let result_forced = split_map_rayon(input.clone(), modifier, 2);

    let correct = input
        .iter()
        .map(ToString::to_string)
        .collect::<Vec<String>>();
    assert_eq!(result_rayon, correct);
    assert_eq!(result_forced, correct);
    assert_eq!(
        correct,
        vec![
            "10".to_string(),
            "20".to_string(),
            "30".to_string(),
            "40".to_string(),
            "50".to_string()
        ]
    );
}

#[test]
pub fn with_splitting() {
    let input = (0..100000).into_iter().collect::<Vec<u32>>();

    let modifier = |x: u32| -> String { x.to_string() };

    let result_rayon = splitter_with_rayon(input.clone(), modifier);
    let result_sequential = split_map_rayon(input.clone(), modifier, 100001);

    let correct = input
        .iter()
        .map(ToString::to_string)
        .collect::<Vec<String>>();
    assert_eq!(result_rayon.len(), 100000);
    assert_eq!(result_rayon, correct);
    assert_eq!(result_sequential, correct);
}

#[test]
fn empty_input_gives_empty_output() {
    let input: Vec<u32> = vec![];
    assert_eq!(worker_count(0, THRESHOLD), 0);
    assert_eq!(splitter_with_rayon(input.clone(), |x: u32| x + 1), Vec::<u32>::new());
    assert_eq!(split_map_rayon(input, |x: u32| x + 1, 1), Vec::<u32>::new());
    assert!(split_chunks(Vec::<u32>::new(), 3).is_empty());
}

#[test]
fn threshold_boundary() {
    assert_eq!(worker_count(99, 100), 0);
    assert_eq!(worker_count(100, 100), 1);
    assert_eq!(worker_count(101, 100), 2);
    assert_eq!(worker_count(4, 5), 0);
    assert_eq!(worker_count(5, 5), 1);
    assert_eq!(worker_count(100000, 100), 1000);
}

#[test]
fn chunk_boundaries_of_250_by_100() {
    let input = (0..250).collect::<Vec<u32>>();
    assert_eq!(worker_count(250, 100), 3);
    let chunks = split_chunks(input.clone(), 100);
    let sizes = chunks.iter().map(|c| c.len()).collect::<Vec<usize>>();
    assert_eq!(sizes, vec![100, 100, 50]);
    assert_eq!(chunks[0][0], 0);
    assert_eq!(chunks[1][0], 100);
    assert_eq!(chunks[2][49], 249);
    assert_eq!(concat_parts(chunks), input);

    let doubled = split_map_rayon(input.clone(), |x: u32| 2 * x, 100);
    assert_eq!(doubled, input.iter().map(|x| 2 * x).collect::<Vec<u32>>());
}

#[test]
fn chunk_larger_than_input() {
    let chunks = split_chunks(vec![1u8, 2, 3], 10);
    assert_eq!(chunks, vec![vec![1u8, 2, 3]]);
    let exact = split_chunks(vec![1u8, 2, 3, 4], 2);
    assert_eq!(exact, vec![vec![1u8, 2], vec![3, 4]]);
}

#[test]
fn paths_agree() {
    let input = (0..1000).map(|x| x * 7 % 13).collect::<Vec<u64>>();
    let f = |x: u64| x * x + 1;
    let sequential = split_map_rayon(input.clone(), f, 1001);
    for threshold in [1usize, 7, 100, 999, 1000] {
        assert_eq!(split_map_rayon(input.clone(), f, threshold), sequential);
    }
}

#[test]
fn order_and_length_kept() {
    let input = (0..1234).rev().collect::<Vec<i64>>();
    let result = split_map_rayon(input.clone(), |x: i64| (x, -x), 10);
    assert_eq!(result.len(), input.len());
    for (i, x) in input.iter().enumerate() {
        assert_eq!(result[i], (*x, -*x));
    }
}

#[test]
fn chunk_by_chunk_then_joined() {
    let input = (0..523).collect::<Vec<u32>>();
    let f = |x: u32| format!("<{}>", x);
    let parts = split_chunks(input.clone(), THRESHOLD)
        .into_iter()
        .map(|chunk| map_sequential(chunk, &f))
        .collect::<Vec<Vec<String>>>();
    assert_eq!(parts.len(), worker_count(523, THRESHOLD));
    let joined = concat_parts(parts);
    assert_eq!(joined, map_sequential(input, &f));
    assert_eq!(joined[522], "<522>");
}

#[test]
fn sequential_map_in_order() {
    let out = map_sequential(vec![3u8, 1, 2], &|x: u8| x + 10);
    assert_eq!(out, vec![13u8, 11, 12]);
    assert_eq!(map_sequential(Vec::<u8>::new(), &|x: u8| x), Vec::<u8>::new());
}

#[test]
fn reversing_and_joining() {
    assert_eq!(reversed(vec!['a', 'b', 'c']), vec!['c', 'b', 'a']);
    assert_eq!(reversed(Vec::<char>::new()), Vec::<char>::new());
    let joined = concat_parts(vec![vec![1, 2], vec![], vec![3], vec![4, 5, 6]]);
    assert_eq!(joined, vec![1, 2, 3, 4, 5, 6]);
    assert_eq!(concat_parts(Vec::<Vec<u8>>::new()), Vec::<u8>::new());
}
