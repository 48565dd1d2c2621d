//! Exact values of the fixed-point distance measures.

use photo_gallery::utils::{
    chebyshev_distance, cosine_distance, cosine_similarity, dot_product_distance,
    euclidean_distance, manhattan_distance, minkowski_distance, pearson_correlation,
};

#[test]
fn cosine_similarity_of_identical_vectors_is_one() {
    let a: Vec<i64> = vec![10_000, 0];
    assert_eq!(cosine_similarity(&a, &a, false), 10_000);
}

#[test]
fn cosine_similarity_of_orthogonal_vectors_is_zero() {
    let a: Vec<i64> = vec![10_000, 0];
    let b: Vec<i64> = vec![0, 10_000];
    assert_eq!(cosine_similarity(&a, &b, false), 0);
    assert_eq!(cosine_distance(&a, &b), 10_000);
}

#[test]
fn cosine_similarity_of_opposite_vectors_is_minus_one() {
    let a: Vec<i64> = vec![10_000, 0];
    let b: Vec<i64> = vec![-10_000, 0];
    assert_eq!(cosine_similarity(&a, &b, false), -10_000);
    assert_eq!(cosine_distance(&a, &b), 20_000);
}

#[test]
fn cosine_similarity_normalized_is_the_scaled_inner_product() {
    let a: Vec<i64> = vec![5_000, 5_000];
    assert_eq!(cosine_similarity(&a, &a, true), 5_000);
}

#[test]
fn cosine_similarity_with_zero_vector_is_zero() {
    let a: Vec<i64> = vec![0, 0];
    let b: Vec<i64> = vec![10_000, 0];
    assert_eq!(cosine_similarity(&a, &b, false), 0);
}

#[test]
fn euclidean_distance_of_a_right_triangle() {
    let a: Vec<i64> = vec![0, 0];
    let b: Vec<i64> = vec![30_000, 40_000];
    assert_eq!(euclidean_distance(&a, &b), 50_000);
}

#[test]
fn euclidean_distance_rounds_down() {
    let a: Vec<i64> = vec![0, 0];
    let b: Vec<i64> = vec![1, 1];
    // sqrt(2) floors to 1
    assert_eq!(euclidean_distance(&a, &b), 1);
}

#[test]
fn manhattan_distance_sums_absolute_differences() {
    let a: Vec<i64> = vec![0, 0];
    let b: Vec<i64> = vec![30_000, -40_000];
    assert_eq!(manhattan_distance(&a, &b), 70_000);
}

#[test]
fn chebyshev_distance_takes_the_largest_difference() {
    let a: Vec<i64> = vec![0, 0, 100];
    let b: Vec<i64> = vec![30_000, -40_000, 100];
    assert_eq!(chebyshev_distance(&a, &b), 40_000);
}

#[test]
fn chebyshev_distance_of_empty_vectors_is_zero() {
    let a: Vec<i64> = vec![];
    assert_eq!(chebyshev_distance(&a, &a), 0);
}

#[test]
fn dot_product_distance_is_the_scaled_inner_product() {
    let a: Vec<i64> = vec![10_000, 0];
    let b: Vec<i64> = vec![10_000, 10_000];
    assert_eq!(dot_product_distance(&a, &b), 10_000);
}

#[test]
fn pearson_correlation_of_linearly_related_vectors_is_one() {
    let a: Vec<i64> = vec![0, 10_000];
    let b: Vec<i64> = vec![5_000, 15_000];
    assert_eq!(pearson_correlation(&a, &b), 10_000);
}

#[test]
fn pearson_correlation_of_anticorrelated_vectors_is_minus_one() {
    let a: Vec<i64> = vec![0, 10_000];
    let b: Vec<i64> = vec![15_000, 5_000];
    assert_eq!(pearson_correlation(&a, &b), -10_000);
}

#[test]
fn pearson_correlation_of_constant_vector_is_zero() {
    // a constant vector has zero variance, so no direction to correlate
    let a: Vec<i64> = vec![7_000, 7_000];
    let b: Vec<i64> = vec![0, 10_000];
    assert_eq!(pearson_correlation(&a, &b), 0);
}

#[test]
fn minkowski_distance_generalizes_manhattan_and_euclidean() {
    let a: Vec<i64> = vec![0, 0];
    let b: Vec<i64> = vec![30_000, -40_000];
    assert_eq!(minkowski_distance(&a, &b, 1), 70_000);
    assert_eq!(minkowski_distance(&a, &b, 2), 50_000);
}

#[test]
fn minkowski_distance_takes_the_floored_root() {
    let a: Vec<i64> = vec![0, 0];
    let b: Vec<i64> = vec![3, 4];
    // 27 + 64 = 91; the cube root of 91 floors to 4
    assert_eq!(minkowski_distance(&a, &b, 3), 4);
    // 81 + 256 = 337; the fourth root of 337 floors to 4
    assert_eq!(minkowski_distance(&a, &b, 4), 4);
}
