use fasttextaug::count::{AugCountParams, Fraction};
use fasttextaug::text::get_chars_len;
use fasttextaug::utils::{split_n_to_chunks, split_to_chunks_indexes};

#[test]
fn test_english_char_counter() {
    let input = "Example";
    assert_eq!(input.len(), 7);
    assert_eq!(get_chars_len(input), 7)
}

#[test]
fn test_cyrillic_char_counter() {
    let input: &str = "Пример";
    assert_eq!(input.len(), 12);
    assert_eq!(get_chars_len(input), 6)
}

#[test]
fn test_mixed_char_counter() {
    let input: &str = "It's my пример";
    assert_eq!(input.len(), 20);
    assert_eq!(get_chars_len(input), 14)
}

#[test]
fn test_split_equal() {
    assert_eq!(split_n_to_chunks(8, 4), vec![2, 2, 2, 2]);
}

#[test]
fn test_split_non_equal() {
    assert_eq!(split_n_to_chunks(7, 3), vec![3, 3, 1]);
}

#[test]
fn test_split_less_than_one() {
    assert_eq!(split_n_to_chunks(2, 5), vec![1, 1, 0, 0, 0]);
}

#[test]
fn test_split_zero() {
    assert_eq!(split_n_to_chunks(0, 3), vec![0, 0, 0]);
}

#[test]
fn test_split_zero_chunks() {
    let expected: Vec<usize> = Vec::new();
    assert_eq!(split_n_to_chunks(5, 0), expected);
}

#[test]
fn test_split_largest_size() {
    assert_eq!(split_n_to_chunks(usize::MAX, 1), vec![usize::MAX]);
    let parts = split_n_to_chunks(usize::MAX, 2);
    assert_eq!(parts[0], usize::MAX / 2 + 1);
    assert_eq!(parts[1], usize::MAX / 2);
}

#[test]
fn test_split_to_chunks_equal() {
    let arr = vec![1, 2, 3, 4, 5, 6];
    let chunk_idxs = split_to_chunks_indexes(arr.len(), 3);
    assert_eq!(&arr[chunk_idxs[0].0..chunk_idxs[0].1], vec![1, 2]);
    assert_eq!(&arr[chunk_idxs[1].0..chunk_idxs[1].1], vec![3, 4]);
    assert_eq!(&arr[chunk_idxs[2].0..chunk_idxs[2].1], vec![5, 6]);
}

#[test]
fn test_split_to_chunks_non_equal() {
    let arr = vec![1, 2, 3, 4, 5, 6, 7];
    let chunk_idxs = split_to_chunks_indexes(arr.len(), 3);
    assert_eq!(&arr[chunk_idxs[0].0..chunk_idxs[0].1], vec![1, 2, 3]);
    assert_eq!(&arr[chunk_idxs[1].0..chunk_idxs[1].1], vec![4, 5, 6]);
    assert_eq!(&arr[chunk_idxs[2].0..chunk_idxs[2].1], vec![7]);
}

#[test]
fn test_split_to_chunks_with_zeros() {
    let arr = vec![1, 2];
    let chunk_idxs = split_to_chunks_indexes(arr.len(), 3);
    assert_eq!(&arr[chunk_idxs[0].0..chunk_idxs[0].1], vec![1]);
    assert_eq!(&arr[chunk_idxs[1].0..chunk_idxs[1].1], vec![2]);
    assert_eq!(&arr[chunk_idxs[2].0..chunk_idxs[2].1], Vec::<i32>::new());
}

#[test]
fn test_chunks_partition_every_index_once() {
    for m in 0..20usize {
        for t in 1..7usize {
            let chunks = split_to_chunks_indexes(m, t);
            assert_eq!(chunks.len(), t);
            assert_eq!(chunks[0].0, 0);
            assert_eq!(chunks[t - 1].1, m);
            for i in 1..t {
                assert_eq!(chunks[i - 1].1, chunks[i].0);
            }
        }
    }
}

fn params(min: Option<usize>, max: Option<usize>, p: Option<(i64, u64)>) -> AugCountParams {
    AugCountParams::new(min, max, p.map(|(n, d)| Fraction::new(n, d)))
}

#[test]
fn test_calc_aug_all_params() {
    assert_eq!(params(Some(3), Some(7), Some((1, 2))).calculate_aug_cnt(10), 5);
}

#[test]
fn test_calc_aug_min_thres() {
    assert_eq!(params(Some(5), Some(7), Some((1, 5))).calculate_aug_cnt(10), 5);
}

#[test]
fn test_calc_aug_max_thres() {
    assert_eq!(params(Some(5), Some(7), Some((9, 10))).calculate_aug_cnt(10), 7);
}

#[test]
fn test_calc_aug_all_none() {
    assert_eq!(params(None, None, None).calculate_aug_cnt(10), 3);
}

#[test]
fn test_calc_aug_zero() {
    assert_eq!(params(None, None, None).calculate_aug_cnt(0), 0);
}

#[test]
fn test_calc_aug_p_zero() {
    assert_eq!(params(Some(3), None, Some((0, 1))).calculate_aug_cnt(10), 3);
}

#[test]
fn test_calc_aug_p_negative() {
    assert_eq!(params(Some(3), None, Some((-3, 10))).calculate_aug_cnt(10), 3);
    assert_eq!(params(None, None, Some((-3, 10))).calculate_aug_cnt(10), 0);
}

#[test]
fn test_calc_floor_beats_smaller_ceiling() {
    assert_eq!(params(Some(6), Some(2), Some((1, 10))).calculate_aug_cnt(10), 6);
}

#[test]
fn test_calc_rounds_up_and_saturates() {
    assert_eq!(params(None, None, Some((1, 3))).calculate_aug_cnt(7), 3);
    assert_eq!(params(None, None, Some((3, 1))).calculate_aug_cnt(usize::MAX), usize::MAX);
}

#[test]
fn test_thread_ranges_floor_and_no_empty_range() {
    assert_eq!(fasttextaug::utils::thread_ranges(5, 0), vec![(0, 5)]);
    assert_eq!(fasttextaug::utils::thread_ranges(2, 5), vec![(0, 1), (1, 2)]);
    assert_eq!(fasttextaug::utils::thread_ranges(0, 3), vec![]);
    assert_eq!(fasttextaug::utils::thread_ranges(7, 3), vec![(0, 3), (3, 6), (6, 7)]);
}

#[test]
fn test_concat_results_in_order() {
    let parts = vec![vec![String::from("a")], vec![], vec![String::from("b"), String::from("c")]];
    assert_eq!(fasttextaug::utils::concat_results(parts), vec!["a", "b", "c"]);
}
