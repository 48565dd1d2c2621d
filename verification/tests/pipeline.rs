//! The ingestion pipeline end to end: decoding, preprocessing, face
//! resolution scenarios and ranked search.

use photo_gallery::errors::CreatePhotoError;
use photo_gallery::gallery::{filter_detections, suppress_overlaps, Gallery, RecognizedFaceOutput};
use photo_gallery::geometry::{NormalizedBox, PixelBox};
use photo_gallery::imaging::{cut_image, decode_photo, RgbImageBuf};
use photo_gallery::models::PhotoForm;
use photo_gallery::preprocess::{arcface_config, get_image_tensor, ultraface_config};
use photo_gallery::resolver::canonical_policy;
use photo_gallery::utils::cosine_distance;

/// A `side` by `side` photo, PNG-encoded, every pixel `(r, g, b)`.
fn png_bytes(side: u32, r: u8, g: u8, b: u8) -> Vec<u8> {
    let mut img = image::RgbImage::new(side, side);
    for p in img.pixels_mut() {
        *p = image::Rgb([r, g, b]);
    }
    let mut buf: Vec<u8> = Vec::new();
    img.write_to(&mut std::io::Cursor::new(&mut buf), image::ImageOutputFormat::Png).unwrap();
    buf
}

fn face(embedding: Vec<i64>) -> RecognizedFaceOutput {
    RecognizedFaceOutput {
        score: 9_000,
        bbox: NormalizedBox { x_tl: 0, y_tl: 0, x_br: 5_000, y_br: 5_000 },
        landmarks: vec![],
        embedding,
    }
}

fn form(title: &str, bytes: Vec<u8>) -> PhotoForm {
    PhotoForm { title: title.to_string(), album_id: 1, photo_image: bytes }
}

#[test]
fn decoding_roundtrips_pixel_values() {
    let mut img = image::RgbImage::new(2, 2);
    img.put_pixel(0, 0, image::Rgb([1, 2, 3]));
    img.put_pixel(1, 0, image::Rgb([4, 5, 6]));
    img.put_pixel(0, 1, image::Rgb([7, 8, 9]));
    img.put_pixel(1, 1, image::Rgb([10, 11, 12]));
    let mut buf: Vec<u8> = Vec::new();
    img.write_to(&mut std::io::Cursor::new(&mut buf), image::ImageOutputFormat::Png).unwrap();

    let decoded = decode_photo(&buf).unwrap();
    assert_eq!(decoded.width, 2);
    assert_eq!(decoded.height, 2);
    assert_eq!(decoded.data, vec![1, 2, 3, 4, 5, 6, 7, 8, 9, 10, 11, 12]);
}

#[test]
fn decoding_garbage_fails_with_decode_error() {
    let garbage: Vec<u8> = vec![0, 1, 2, 3, 4, 5, 6, 7];
    match decode_photo(&garbage) {
        Err(CreatePhotoError::DecodeError) => {},
        _ => panic!("malformed bytes must fail the decode stage"),
    }
}

#[test]
fn cutting_extracts_exactly_the_boxed_region() {
    // a 4x4 image whose red channel encodes the pixel's coordinates
    let mut data: Vec<u8> = Vec::new();
    for y in 0..4u8 {
        for x in 0..4u8 {
            data.extend_from_slice(&[16 * y + x, 100, 200]);
        }
    }
    let img = RgbImageBuf { width: 4, height: 4, data };
    let bb = PixelBox { x_tl: 1, y_tl: 2, x_br: 3, y_br: 4 };
    let crop = cut_image(&img, &bb);
    assert_eq!((crop.width, crop.height), (2, 2));
    assert_eq!(
        crop.data,
        vec![33, 100, 200, 34, 100, 200, 49, 100, 200, 50, 100, 200],
    );
}

#[test]
fn preprocessor_output_has_the_configured_shape() {
    // whatever the source dimensions, the tensor is (1, C, H, W)
    for side in [1u32, 2, 7] {
        let bytes = png_bytes(side, 255, 255, 255);
        let img = decode_photo(&bytes).unwrap();
        let cfg = ultraface_config();
        let t = get_image_tensor(&img, &cfg);
        assert_eq!(t.shape(), (1, 3, 480, 640));
        assert_eq!(t.data.len(), 3 * 480 * 640);
        let cfg2 = arcface_config();
        let t2 = get_image_tensor(&img, &cfg2);
        assert_eq!(t2.shape(), (1, 3, 112, 112));
        assert_eq!(t2.data.len(), 3 * 112 * 112);
    }
}

#[test]
fn preprocessor_normalizes_exactly_in_fixed_point() {
    let bytes = png_bytes(3, 255, 255, 255);
    let img = decode_photo(&bytes).unwrap();
    // (255 / 255 - 0.5) / 0.5 = 1, fixed-point 10000
    let t = get_image_tensor(&img, &arcface_config());
    assert_eq!(t.data[0], 10_000);
    // (255 / 255 - 0.485) / 0.229 = 2.2489...; rounded towards zero
    let t2 = get_image_tensor(&img, &ultraface_config());
    assert_eq!(t2.data[0], 22_489);
}

#[test]
fn uploading_first_face_creates_one_person() {
    let mut g = Gallery::new(2, canonical_policy());
    let crops = g
        .create_photo(form("a", png_bytes(8, 50, 60, 70)), 1, &vec![10_000, 0], &vec![face(
            vec![10_000, 0],
        )])
        .unwrap();

    assert_eq!(g.photos.len(), 1);
    assert_eq!(g.photos[0].id, 1);
    assert_eq!(g.photos[0].title.as_deref(), Some("a"));
    assert_eq!(g.photos[0].path.as_deref(), Some("storage/images/1.jpeg"));
    assert_eq!(g.photos[0].embedding.as_deref(), Some(&[10_000, 0][..]));

    assert_eq!(g.persons.len(), 1);
    assert_eq!(g.persons[0].id, 1);
    assert_eq!(g.persons[0].title, "Unknown");
    assert_eq!(g.persons[0].avatar, "storage/faces/1.jpeg");

    assert_eq!(g.faces.len(), 1);
    assert_eq!(g.faces[0].id, 1);
    assert_eq!(g.faces[0].photo_id, 1);
    assert_eq!(g.faces[0].person_id, Some(1));
    assert_eq!(g.faces[0].path.as_deref(), Some("storage/faces/1.jpeg"));

    // the crop covers the boxed quarter of the 8x8 photo
    assert_eq!(crops.len(), 1);
    assert_eq!((crops[0].width, crops[0].height), (4, 4));
}

#[test]
fn uploading_a_matching_face_joins_the_existing_person() {
    let mut g = Gallery::new(2, canonical_policy());
    g.create_photo(form("a", png_bytes(8, 1, 2, 3)), 1, &vec![10_000, 0], &vec![face(vec![
        10_000, 0,
    ])])
        .unwrap();
    g.create_photo(form("b", png_bytes(8, 9, 9, 9)), 1, &vec![0, 10_000], &vec![face(vec![
        10_000, 1,
    ])])
        .unwrap();

    assert_eq!(g.persons.len(), 1, "no new person may be created for a match");
    assert_eq!(g.faces.len(), 2);
    assert_eq!(g.faces[1].person_id, Some(1));
}

#[test]
fn uploading_a_distant_face_founds_a_second_person() {
    let mut g = Gallery::new(2, canonical_policy());
    g.create_photo(form("a", png_bytes(8, 1, 2, 3)), 1, &vec![10_000, 0], &vec![face(vec![
        10_000, 0,
    ])])
        .unwrap();
    // orthogonal: cosine distance 1.0, beyond the 0.5 threshold
    g.create_photo(form("b", png_bytes(8, 9, 9, 9)), 1, &vec![0, 10_000], &vec![face(vec![
        0, 10_000,
    ])])
        .unwrap();

    assert_eq!(g.persons.len(), 2);
    assert_eq!(g.faces[1].person_id, Some(2));
}

#[test]
fn two_matching_faces_in_one_photo_share_the_person() {
    let mut g = Gallery::new(2, canonical_policy());
    g.create_photo(
        form("a", png_bytes(8, 1, 2, 3)),
        1,
        &vec![10_000, 0],
        &vec![face(vec![10_000, 0]), face(vec![10_000, 2])],
    )
        .unwrap();

    assert_eq!(g.persons.len(), 1);
    assert_eq!(g.faces.len(), 2);
    assert_eq!(g.faces[0].person_id, Some(1));
    assert_eq!(g.faces[1].person_id, Some(1));
}

#[test]
fn resolving_twice_against_an_unchanged_corpus_is_idempotent() {
    let mut g = Gallery::new(2, canonical_policy());
    g.create_photo(form("a", png_bytes(8, 1, 2, 3)), 1, &vec![10_000, 0], &vec![face(vec![
        10_000, 0,
    ])])
        .unwrap();

    let e: Vec<i64> = vec![9_000, 1_000];
    let first = g.nearest_face(&e);
    let second = g.nearest_face(&e);
    assert_eq!(first, second);
    let (i1, d1) = first.unwrap();
    assert_eq!(g.faces[i1].person_id, Some(1));
    assert!(d1 >= 0);
}

#[test]
fn face_embedding_of_wrong_length_fails_fast() {
    let mut g = Gallery::new(2, canonical_policy());
    let r = g.create_photo(form("a", png_bytes(8, 1, 2, 3)), 1, &vec![10_000, 0], &vec![face(
        vec![10_000],
    )]);
    match r {
        Err(CreatePhotoError::DimensionMismatch) => {},
        _ => panic!("a mismatched embedding must fail the dimension gate"),
    }
    // the photo row was already persisted; the per-face stage was not
    assert_eq!(g.photos.len(), 1);
    assert_eq!(g.faces.len(), 0);
    assert_eq!(g.persons.len(), 0);
}

#[test]
fn photo_embedding_of_wrong_length_leaves_the_gallery_unchanged() {
    let mut g = Gallery::new(2, canonical_policy());
    let r = g.create_photo(form("a", png_bytes(8, 1, 2, 3)), 1, &vec![10_000], &vec![]);
    match r {
        Err(CreatePhotoError::DimensionMismatch) => {},
        _ => panic!("a mismatched embedding must fail the dimension gate"),
    }
    assert_eq!(g.photos.len(), 0);
}

#[test]
fn a_malformed_bounding_box_fails_the_inference_stage() {
    let mut g = Gallery::new(2, canonical_policy());
    let bad = RecognizedFaceOutput {
        score: 9_000,
        bbox: NormalizedBox { x_tl: 6_000, y_tl: 0, x_br: 5_000, y_br: 5_000 },
        landmarks: vec![],
        embedding: vec![10_000, 0],
    };
    let r = g.create_photo(form("a", png_bytes(8, 1, 2, 3)), 1, &vec![10_000, 0], &vec![bad]);
    match r {
        Err(CreatePhotoError::InferenceError) => {},
        _ => panic!("an unordered box must fail the inference stage"),
    }
}

#[test]
fn ingesting_faces_for_a_missing_photo_is_not_found() {
    let mut g = Gallery::new(2, canonical_policy());
    let img = RgbImageBuf { width: 2, height: 2, data: vec![0; 12] };
    let r = g.cut_faces_and_save(42, &img, &vec![]);
    match r {
        Err(CreatePhotoError::NotFoundError) => {},
        _ => panic!("an unknown photo id must fail as not found"),
    }
}

#[test]
fn confidence_filter_keeps_order_and_cuts_below_threshold() {
    let dets = vec![
        face(vec![1, 0]),
        RecognizedFaceOutput { score: 100, ..face(vec![2, 0]) },
        RecognizedFaceOutput { score: 5_000, ..face(vec![3, 0]) },
    ];
    let kept = filter_detections(dets, 5_000);
    assert_eq!(kept.len(), 2);
    assert_eq!(kept[0].embedding, vec![1, 0]);
    assert_eq!(kept[1].embedding, vec![3, 0]);
}

#[test]
fn text_query_ranks_photos_ascending_by_distance() {
    let mut g = Gallery::new(2, canonical_policy());
    // three photos: orthogonal, identical and diagonal to the query
    g.create_photo(form("p1", png_bytes(4, 1, 1, 1)), 1, &vec![0, 10_000], &vec![]).unwrap();
    g.create_photo(form("p2", png_bytes(4, 2, 2, 2)), 1, &vec![10_000, 0], &vec![]).unwrap();
    g.create_photo(form("p3", png_bytes(4, 3, 3, 3)), 1, &vec![7_000, 7_000], &vec![]).unwrap();

    let q: Vec<i64> = vec![10_000, 0];
    let listed = g.get_photos_by_filters(Some(&q), None);
    let ids: Vec<i32> = listed.iter().map(|p| p.id).collect();
    assert_eq!(ids, vec![2, 3, 1]);

    let limited = g.get_photos_by_filters(Some(&q), Some(2));
    let ids2: Vec<i32> = limited.iter().map(|p| p.id).collect();
    assert_eq!(ids2, vec![2, 3]);
}

#[test]
fn equally_distant_photos_keep_insertion_order() {
    let mut g = Gallery::new(2, canonical_policy());
    g.create_photo(form("p1", png_bytes(4, 1, 1, 1)), 1, &vec![10_000, 0], &vec![]).unwrap();
    g.create_photo(form("p2", png_bytes(4, 2, 2, 2)), 1, &vec![10_000, 0], &vec![]).unwrap();

    let q: Vec<i64> = vec![0, 10_000];
    let ids: Vec<i32> = g.get_photos_by_filters(Some(&q), None).iter().map(|p| p.id).collect();
    assert_eq!(ids, vec![1, 2], "the documented tie-break is insertion order");
}

#[test]
fn listing_without_a_query_keeps_insertion_order() {
    let mut g = Gallery::new(2, canonical_policy());
    g.create_photo(form("p1", png_bytes(4, 1, 1, 1)), 1, &vec![10_000, 0], &vec![]).unwrap();
    g.create_photo(form("p2", png_bytes(4, 2, 2, 2)), 1, &vec![0, 10_000], &vec![]).unwrap();
    let ids: Vec<i32> = g.get_photos_by_filters(None, None).iter().map(|p| p.id).collect();
    assert_eq!(ids, vec![1, 2]);
    let ids1: Vec<i32> = g.get_photos_by_filters(None, Some(1)).iter().map(|p| p.id).collect();
    assert_eq!(ids1, vec![1]);
}

#[test]
fn fetching_and_deleting_photos_by_id() {
    let mut g = Gallery::new(2, canonical_policy());
    g.create_photo(form("a", png_bytes(8, 1, 2, 3)), 7, &vec![10_000, 0], &vec![face(vec![
        10_000, 0,
    ])])
        .unwrap();

    let listed = g.get_photo_by_id(1).unwrap();
    assert_eq!(listed.id, 1);
    assert_eq!(listed.user_id, 7);
    assert_eq!(listed.title.as_deref(), Some("a"));
    assert!(g.get_photo_by_id(2).is_none());

    // deletion cascades to the photo's faces but keeps the person
    g.delete_photo_by_id(1).unwrap();
    assert_eq!(g.photos.len(), 0);
    assert_eq!(g.faces.len(), 0);
    assert_eq!(g.persons.len(), 1);
    match g.delete_photo_by_id(1) {
        Err(CreatePhotoError::NotFoundError) => {},
        _ => panic!("deleting twice must fail as not found"),
    }
}

#[test]
fn synthetic_vectors_straddling_the_threshold_classify_correctly() {
    // the reference face is [1, 0]; the three probes sit at cosine
    // distance below, exactly at, and above the 0.5 threshold
    let reference: Vec<i64> = vec![10_000, 0];
    let below: Vec<i64> = vec![6_000, 8_000];
    let at: Vec<i64> = vec![5_000, 8_660];
    let above: Vec<i64> = vec![4_000, 9_165];
    assert_eq!(cosine_distance(&reference, &below), 4_000);
    assert_eq!(cosine_distance(&reference, &at), 5_000);
    assert_eq!(cosine_distance(&reference, &above), 6_000);

    // each probe is resolved against a corpus holding only the reference
    let mut outcomes: Vec<Option<i32>> = Vec::new();
    for probe in [below, at, above] {
        let mut g = Gallery::new(2, canonical_policy());
        g.create_photo(form("ref", png_bytes(8, 1, 1, 1)), 1, &reference, &vec![face(
            reference.clone(),
        )])
            .unwrap();
        g.create_photo(form("probe", png_bytes(8, 2, 2, 2)), 1, &reference, &vec![face(probe)])
            .unwrap();
        outcomes.push(g.faces[1].person_id);
    }
    assert_eq!(outcomes[0], Some(1), "below the threshold: matched");
    assert_eq!(outcomes[1], Some(1), "exactly at the threshold: still matched");
    assert_eq!(outcomes[2], Some(2), "beyond the threshold: a new person");
}

#[test]
fn overlap_suppression_drops_duplicates_of_earlier_survivors() {
    let boxed = |x_tl: i64, y_tl: i64, x_br: i64, y_br: i64, tag: i64| RecognizedFaceOutput {
        score: 9_000,
        bbox: NormalizedBox { x_tl, y_tl, x_br, y_br },
        landmarks: vec![],
        embedding: vec![tag, 0],
    };
    let dets = vec![
        boxed(0, 0, 5_000, 5_000, 1),
        // almost the same region: suppressed against the first
        boxed(100, 100, 5_100, 5_100, 2),
        // disjoint: kept
        boxed(6_000, 6_000, 9_000, 9_000, 3),
        // corner touch with the first, intersection over union far below one half: kept
        boxed(4_000, 4_000, 9_000, 9_000, 4),
    ];
    let kept = suppress_overlaps(dets, 5_000);
    let tags: Vec<i64> = kept.iter().map(|d| d.embedding[0]).collect();
    assert_eq!(tags, vec![1, 3, 4]);
}
