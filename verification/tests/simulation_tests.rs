use aos4_combat_roller::combat::simulation::{
    bin_size, histogram_bin_size, histogram_counts, midpoint_rank, sample_total, simulation_sample, sorted_samples,
    BinCount,
};
use aos4_combat_roller::data::models::{Unit, Weapon};

fn make_bin(value: usize) -> BinCount {
    BinCount { value, count: 1 }
}

#[test]
fn test_bin_size_empty() {
    let bins: [BinCount; 0] = [];
    assert_eq!(bin_size(&bins), 1);
}

#[test]
fn test_bin_size_single() {
    let bins = [make_bin(10)];
    assert_eq!(bin_size(&bins), 1);
}

#[test]
fn test_bin_size_two_bins_diff_1() {
    let bins = [make_bin(10), make_bin(11)];
    assert_eq!(bin_size(&bins), 1);
}

#[test]
fn test_bin_size_two_bins_diff_5() {
    let bins = [make_bin(10), make_bin(15)];
    assert_eq!(bin_size(&bins), 5);
}

#[test]
fn percentile_of_value_basic() {
    let samples = vec![1, 2, 3, 4, 5, 6, 7, 8, 9, 10];
    let percentile = midpoint_rank(&samples, 5) as f64 / samples.len() as f64;
    assert!(percentile >= 0.4);
    assert!(percentile <= 0.5);
}

#[test]
fn histogram_bins_group_when_large() {
    let samples: Vec<usize> = (0..50).collect();
    let bins = histogram_counts(&samples);
    assert!(!bins.is_empty());
    // With max > 30, bin size should be 5
    assert!(bins.iter().all(|b| b.value % 5 == 0));
}

#[test]
fn histogram_bin_widths() {
    assert_eq!(histogram_bin_size(0), 1);
    assert_eq!(histogram_bin_size(15), 1);
    assert_eq!(histogram_bin_size(16), 2);
    assert_eq!(histogram_bin_size(30), 2);
    assert_eq!(histogram_bin_size(31), 5);
}

#[test]
fn histogram_small_values_get_their_own_bar() {
    let samples = vec![3, 1, 3, 0, 7, 3];
    let bins = histogram_counts(&samples);
    assert_eq!(
        bins,
        vec![
            BinCount { value: 0, count: 1 },
            BinCount { value: 1, count: 1 },
            BinCount { value: 3, count: 3 },
            BinCount { value: 7, count: 1 },
        ]
    );
}

#[test]
fn histogram_counts_every_sample() {
    let samples: Vec<usize> = (0..97).map(|i| (i * 37) % 41).collect();
    let bins = histogram_counts(&samples);
    let total: usize = bins.iter().map(|b| b.count).sum();
    assert_eq!(total, samples.len());
    assert!(bins.windows(2).all(|w| w[0].value < w[1].value));
    assert!(bins.iter().all(|b| b.value % 5 == 0));
}

#[test]
fn histogram_of_no_samples_is_empty() {
    assert!(histogram_counts(&[]).is_empty());
}

#[test]
fn midpoint_rank_counts_half_the_ties() {
    let samples = vec![2, 2, 2, 2, 1, 5];
    // one below, four equal: 1 + 4 / 2
    assert_eq!(midpoint_rank(&samples, 2), 3);
    assert_eq!(midpoint_rank(&samples, 0), 0);
    assert_eq!(midpoint_rank(&samples, 9), 6);
    assert_eq!(midpoint_rank(&[], 3), 0);
}

#[test]
fn sorting_keeps_every_sample() {
    let samples = vec![5, 3, 9, 3, 0, 12, 5];
    assert_eq!(sorted_samples(&samples), vec![0, 3, 3, 5, 5, 9, 12]);
    assert_eq!(sorted_samples(&[]), Vec::<usize>::new());
}

#[test]
fn total_of_samples() {
    assert_eq!(sample_total(&[1, 2, 3, 4]), 10);
    assert_eq!(sample_total(&[usize::MAX, usize::MAX]), 2 * usize::MAX as u128);
    assert_eq!(sample_total(&[]), 0);
}

fn weapon(attack: &str, damage: &str) -> Weapon {
    Weapon {
        name: "Blade".into(),
        range: None,
        attack: attack.into(),
        to_hit: 3,
        to_wound: 4,
        rend: -1,
        damage: damage.into(),
        crit_hit: None,
    }
}

fn unit(id: &str, save: u8, ward: Option<u8>, weapons: Vec<Weapon>) -> Unit {
    Unit { id: id.into(), name: id.into(), faction: "Order".into(), save, ward, weapons }
}

#[test]
fn simulation_samples_follow_the_phases() {
    let w = weapon("3", "2");
    let attacker = unit("a", 4, None, vec![w.clone()]);
    let defender = unit("d", 4, None, vec![]);
    for _ in 0..200 {
        let (hits, wounds, damage) =
            simulation_sample(&attacker, &defender, &w, 2, false, false, 0, true, 0, 0, 0, 0, 0, None).unwrap();
        assert!(hits <= 6);
        assert!(wounds <= hits);
        assert!(damage <= 2 * wounds);
        assert_eq!(damage % 2, 0);
    }
}

#[test]
fn simulation_sample_refuses_out_of_range_inputs() {
    // A to-hit of 3 with a modifier of -128 leaves the range of i8.
    let w = weapon("3", "2");
    let attacker = unit("a", 4, None, vec![w.clone()]);
    let defender = unit("d", 4, None, vec![]);
    assert!(simulation_sample(&attacker, &defender, &w, 1, false, false, 0, true, -128, 0, 0, 0, 0, None).is_none());
}
