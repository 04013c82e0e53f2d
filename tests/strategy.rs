use geodist::error::{ensure_non_empty, GeodistError};
use geodist::strategy::{
    choose_strategy, should_use_naive, HausdorffStrategy, MAX_NAIVE_CROSS_PRODUCT,
    MIN_INDEX_CANDIDATE_SIZE,
};

#[test]
fn strategy_prefers_naive_for_small_inputs() {
    assert!(should_use_naive(10, 100));
    assert!(should_use_naive(60, 60));
    assert!(!should_use_naive(70, 70));
}

#[test]
fn thresholds_are_exact() {
    assert_eq!(MIN_INDEX_CANDIDATE_SIZE, 32);
    assert_eq!(MAX_NAIVE_CROSS_PRODUCT, 4000);
    // Smaller side below 32: naive whatever the product.
    assert!(should_use_naive(31, 1_000_000));
    assert!(should_use_naive(1_000_000, 31));
    // 32 * 125 == 4000 pairs: still naive.
    assert!(should_use_naive(32, 125));
    // 32 * 126 == 4032 pairs: indexed.
    assert!(!should_use_naive(32, 126));
    assert!(!should_use_naive(126, 32));
    // 63 * 63 == 3969, 64 * 64 == 4096.
    assert!(should_use_naive(63, 63));
    assert!(!should_use_naive(64, 64));
}

#[test]
fn product_saturates_instead_of_wrapping() {
    assert!(!should_use_naive(usize::MAX, usize::MAX));
    // 2^62 * 64 wraps to zero; saturated it is far above the limit.
    assert!(!should_use_naive(1usize << 62, 64));
    assert!(should_use_naive(usize::MAX, 0));
}

#[test]
fn choose_strategy_follows_thresholds() {
    assert_eq!(choose_strategy(10, 100), HausdorffStrategy::Naive);
    assert_eq!(choose_strategy(60, 60), HausdorffStrategy::Naive);
    assert_eq!(choose_strategy(70, 70), HausdorffStrategy::Indexed);
    assert_eq!(choose_strategy(32, 126), HausdorffStrategy::Indexed);
}

#[test]
fn ensure_non_empty_rejects_only_empty_sets() {
    let empty: Vec<u8> = Vec::new();
    assert_eq!(ensure_non_empty(&empty), Err(GeodistError::EmptyPointSet));
    assert_eq!(ensure_non_empty(&[1u8]), Ok(()));
}
