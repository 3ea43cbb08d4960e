use bloom::adaptive::BloomFilter;
use bloom::{ConstructionError, SeededHash};

fn setup_bloom_filter() -> BloomFilter {
    let size = 10000;
    let hash_functions = vec![SeededHash::new(0), SeededHash::new(1), SeededHash::new(2)];
    BloomFilter::new(size, hash_functions).unwrap()
}

fn calculate_false_positive_rate(filter: &BloomFilter) -> f64 {
    let k = filter.hash_count() as f64;
    let m = filter.current_size() as f64;
    let n = filter.item_count() as f64;
    (1.0 - (-k * n / m).exp()).powf(k)
}

#[test]
fn test_add_and_query() {
    let mut filter = setup_bloom_filter();
    let items = ["item1", "item2", "item3"];

    for &item in &items {
        filter.add(&item.to_string());
        assert!(filter.contains(&item.to_string()), "Item added should be present.");
    }

    assert!(!filter.contains(&"nonexistent".to_string()), "Item not added should not be present.");
}

#[test]
fn test_false_positive_rate_with_trials() {
    let mut average_rate = 0.0;
    let trials = 10;
    for _ in 0..trials {
        let mut filter = setup_bloom_filter();
        let mut false_positives = 0;
        let total_checks = 10000;

        for i in 0..500 {
            filter.add(&format!("item{}", i));
        }

        for i in 500..total_checks {
            if filter.contains(&format!("item{}", i)) {
                false_positives += 1;
            }
        }

        let false_positive_rate = false_positives as f64 / (total_checks - 500) as f64;
        average_rate += false_positive_rate / trials as f64;
    }

    println!("Average false positive rate over {} trials: {}", trials, average_rate);

    let calculated_rate = calculate_false_positive_rate(&setup_bloom_filter());
    let tolerance = 0.05;
    assert!(
        average_rate <= calculated_rate + tolerance,
        "Average false positive rate should be within tolerance of the calculated rate."
    );
}

#[test]
fn test_resize() {
    let mut filter = setup_bloom_filter();
    let initial_size = filter.current_size();
    let resize_trigger = initial_size + 1;

    for i in 0..resize_trigger {
        filter.add(&format!("item{}", i));
    }

    assert!(
        filter.current_size() > initial_size,
        "Filter should resize to a larger size when the capacity is exceeded."
    );

    for i in 0..resize_trigger {
        assert!(
            filter.contains(&format!("item{}", i)),
            "Items added before resizing should still be present."
        );
    }
}

#[test]
fn test_empty_filter() {
    let filter = setup_bloom_filter();
    let non_existent_items = ["ghost1", "ghost2", "ghost3"];

    for &item in &non_existent_items {
        assert!(
            !filter.contains(&item.to_string()),
            "Empty filter should not contain any items."
        );
    }
}

#[test]
fn no_resize_below_load_of_one() {
    let mut filter = setup_bloom_filter();
    for i in 0..500 {
        filter.add(&format!("item{}", i));
    }
    assert!(filter.contains("item0"));
    assert_eq!(filter.current_size(), 10000);
    assert_eq!(filter.item_count(), 500);
}

#[test]
fn small_filter_doubles_and_keeps_items() {
    let mut filter = BloomFilter::new(10, vec![SeededHash::new(0)]).unwrap();
    for i in 0..10 {
        filter.add(&format!("item{}", i));
    }
    assert_eq!(filter.current_size(), 10);
    filter.add("item10");
    assert_eq!(filter.current_size(), 20);
    for i in 0..11 {
        assert!(filter.contains(&format!("item{}", i)));
    }
}

#[test]
fn size_doubles_each_time_load_reaches_one() {
    let mut filter = BloomFilter::new(1, vec![SeededHash::new(7), SeededHash::new(9)]).unwrap();
    let mut sizes = Vec::new();
    for i in 0..9 {
        filter.add(&format!("k{}", i));
        sizes.push(filter.current_size());
    }
    assert_eq!(sizes, vec![1, 2, 4, 4, 8, 8, 8, 8, 16]);
    for i in 0..9 {
        assert!(filter.contains(&format!("k{}", i)));
    }
}

#[test]
fn same_history_gives_same_answers() {
    let mut a = BloomFilter::new(16, vec![SeededHash::new(3), SeededHash::new(4)]).unwrap();
    let mut b = BloomFilter::new(16, vec![SeededHash::new(3), SeededHash::new(4)]).unwrap();
    for i in 0..40 {
        a.add(&format!("x{}", i));
        b.add(&format!("x{}", i));
    }
    assert_eq!(a.current_size(), b.current_size());
    for i in 0..200 {
        let q = format!("x{}", i);
        assert_eq!(a.contains(&q), b.contains(&q));
    }
}

#[test]
fn construction_errors() {
    assert_eq!(
        BloomFilter::new(0, vec![SeededHash::new(0)]).err(),
        Some(ConstructionError::ZeroSize)
    );
    assert_eq!(BloomFilter::new(8, Vec::new()).err(), Some(ConstructionError::NoHashFunctions));
    assert_eq!(BloomFilter::new(0, Vec::new()).err(), Some(ConstructionError::ZeroSize));
}

#[test]
fn seeded_hash_mixes_in_its_seed() {
    let a = SeededHash::new(0).apply("item0");
    let b = SeededHash::new(0b1011).apply("item0");
    assert_eq!(a ^ b, 0b1011);
    assert_ne!(SeededHash::new(0).apply("item0"), SeededHash::new(0).apply("item1"));
}

#[test]
fn observed_rate_near_estimate() {
    let mut filter = setup_bloom_filter();
    for i in 0..500 {
        filter.add(&format!("item{}", i));
    }
    let mut hits = 0;
    for i in 500..10000 {
        if filter.contains(&format!("item{}", i)) {
            hits += 1;
        }
    }
    let observed = hits as f64 / 9500.0;
    let estimate = calculate_false_positive_rate(&filter);
    assert!((observed - estimate).abs() <= 0.05);
}
