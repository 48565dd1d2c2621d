//! Bounding-box denormalization, storage paths, error stages and token
//! claims.

use photo_gallery::errors::CreatePhotoError;
use photo_gallery::geometry::{denormalize_box, NormalizedBox};
use photo_gallery::models::Cliams;
use photo_gallery::resolver::{canonical_policy, resolve_match, Metric, Resolution};
use photo_gallery::storage::{face_path, photo_path};

#[test]
fn denormalized_full_box_spans_the_whole_image() {
    let b = NormalizedBox { x_tl: 0, y_tl: 0, x_br: 10_000, y_br: 10_000 };
    let p = denormalize_box(&b, 640, 480);
    assert_eq!((p.x_tl, p.y_tl, p.x_br, p.y_br), (0, 0, 640, 480));
}

#[test]
fn denormalized_box_scales_against_the_original_dimensions() {
    let b = NormalizedBox { x_tl: 2_500, y_tl: 5_000, x_br: 7_500, y_br: 10_000 };
    let p = denormalize_box(&b, 100, 200);
    assert_eq!((p.x_tl, p.y_tl, p.x_br, p.y_br), (25, 100, 75, 200));
}

#[test]
fn denormalized_box_stays_inside_the_image() {
    // normalized corners at the very edge land exactly on the border
    let b = NormalizedBox { x_tl: 9_999, y_tl: 9_999, x_br: 10_000, y_br: 10_000 };
    let p = denormalize_box(&b, 33, 77);
    assert!(p.x_br <= 33 && p.y_br <= 77);
    assert!(p.x_tl <= p.x_br && p.y_tl <= p.y_br);
}

#[test]
fn photo_and_face_paths_render_the_id_in_decimal() {
    assert_eq!(photo_path(7), "storage/images/7.jpeg");
    assert_eq!(photo_path(0), "storage/images/0.jpeg");
    assert_eq!(face_path(123), "storage/faces/123.jpeg");
    assert_eq!(face_path(4_294_967_295), "storage/faces/4294967295.jpeg");
}

#[test]
fn error_stages_are_named() {
    assert_eq!(CreatePhotoError::DecodeError.stage_name(), "decode");
    assert_eq!(CreatePhotoError::InferenceError.stage_name(), "inference");
    assert_eq!(CreatePhotoError::StoreError.stage_name(), "store");
    assert_eq!(CreatePhotoError::NotFoundError.stage_name(), "not-found");
    assert_eq!(CreatePhotoError::DimensionMismatch.stage_name(), "dimension-mismatch");
}

#[test]
fn threshold_boundary_uses_at_most_not_strictly_less() {
    // synthetic neighbors at T - 1, T and T + 1
    let policy = canonical_policy();
    assert_eq!(policy.metric, Metric::Cosine);
    let t = policy.threshold;
    assert_eq!(resolve_match(Some((3, t - 1)), &policy, 9), Resolution::Matched(3));
    assert_eq!(resolve_match(Some((3, t)), &policy, 9), Resolution::Matched(3));
    assert_eq!(resolve_match(Some((3, t + 1)), &policy, 9), Resolution::NewPerson(9));
}

#[test]
fn resolution_without_a_neighbor_founds_a_new_person() {
    let policy = canonical_policy();
    assert_eq!(resolve_match(None, &policy, 1), Resolution::NewPerson(1));
}

#[test]
fn issued_claims_last_one_day() {
    let c = Cliams::issue("someone@example.com".to_string(), 1_000_000);
    assert_eq!(c.iat, 1_000_000);
    assert_eq!(c.exp, 1_000_000 + 86_400);
    assert!(c.valid_at(1_000_000));
    assert!(c.valid_at(1_000_000 + 86_399));
    assert!(!c.valid_at(1_000_000 + 86_400));
    assert!(!c.valid_at(999_999));
}
