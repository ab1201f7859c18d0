use indexer::rank::{rank, rank_first};
use indexer::score::order_key;

fn bits(values: &[f32]) -> Vec<u32> {
    values.iter().map(|v| v.to_bits()).collect()
}

#[test]
fn keys_of_known_scores() {
    assert_eq!(order_key(1.0f32.to_bits()), 0x3F80_0000);
    assert_eq!(order_key((-1.0f32).to_bits()), -0x3F80_0000);
    assert_eq!(order_key(0.0f32.to_bits()), 0);
    assert_eq!(order_key((-0.0f32).to_bits()), 0);
    assert_eq!(order_key(0.5f32.to_bits()), 0x3F00_0000);
    assert_eq!(order_key(f32::INFINITY.to_bits()), 0x7F80_0000);
    assert_eq!(order_key(f32::NEG_INFINITY.to_bits()), -0x7F80_0000);
}

#[test]
fn a_score_that_is_no_number_counts_as_zero() {
    assert_eq!(order_key(f32::NAN.to_bits()), 0);
    assert_eq!(order_key((-f32::NAN).to_bits()), 0);
    assert_eq!(order_key(0x7F80_0001), 0);
    assert_eq!(order_key(0xFFFF_FFFF), 0);
}

#[test]
fn keys_order_as_the_numbers_do() {
    let values = [
        f32::NEG_INFINITY,
        -3.5e20,
        -1.0,
        -0.70710677,
        -1.0e-30,
        -f32::MIN_POSITIVE / 2.0,
        -0.0,
        0.0,
        f32::MIN_POSITIVE / 2.0,
        1.0e-30,
        0.1,
        0.70710677,
        1.0,
        2.0,
        f32::MAX,
        f32::INFINITY,
    ];
    for a in values.iter() {
        for b in values.iter() {
            let by_key = order_key(a.to_bits()).partial_cmp(&order_key(b.to_bits()));
            assert_eq!(by_key, a.partial_cmp(b), "{a} against {b}");
        }
    }
}

#[test]
fn ranking_is_descending() {
    let sims = bits(&[0.1, 0.9, -0.3, 0.5]);
    assert_eq!(rank(&sims), vec![1, 3, 0, 2]);
}

#[test]
fn all_equal_scores_stay_in_place() {
    let sims = bits(&[0.25; 6]);
    assert_eq!(rank(&sims), vec![0, 1, 2, 3, 4, 5]);
}

#[test]
fn both_zeros_tie() {
    let sims = bits(&[-0.0, 0.0, -0.0, 1.0]);
    assert_eq!(rank(&sims), vec![3, 0, 1, 2]);
}

#[test]
fn not_a_number_ranks_with_zero() {
    let sims = bits(&[f32::NAN, 0.5, -0.5, 0.0]);
    assert_eq!(rank(&sims), vec![1, 0, 3, 2]);
}

#[test]
fn ranking_of_nothing_and_of_one() {
    assert_eq!(rank(&Vec::new()), Vec::<usize>::new());
    assert_eq!(rank(&bits(&[0.3])), vec![0]);
}

#[test]
fn ranking_agrees_with_a_stable_sort() {
    let mut seed: u32 = 12345;
    for length in 0..40usize {
        let mut values: Vec<f32> = Vec::new();
        for _ in 0..length {
            seed = seed.wrapping_mul(1664525).wrapping_add(1013904223);
            values.push(((seed >> 28) as f32 - 8.0) / 8.0);
        }
        let mut expected: Vec<usize> = (0..length).collect();
        expected.sort_by(|a, b| values[*b].partial_cmp(&values[*a]).unwrap());
        assert_eq!(rank(&bits(&values)), expected);
    }
}

#[test]
fn ranking_twice_gives_the_same() {
    let sims = bits(&[0.3, 0.3, 0.9, -1.0, 0.9, 0.0]);
    assert_eq!(rank(&sims), rank(&sims));
    assert_eq!(rank(&sims), vec![2, 4, 0, 1, 5, 3]);
}

#[test]
fn ranking_a_prefix_leaves_the_rest_out() {
    let sims = bits(&[0.1, 0.7, 0.4, 0.9]);
    assert_eq!(rank_first(&sims, 3), vec![1, 2, 0]);
    assert_eq!(rank_first(&sims, 0), Vec::<usize>::new());
}
