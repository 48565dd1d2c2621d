//! The gallery: photos, faces and person clusters, together with the
//! ingestion pipeline and the similarity queries over them.
//!
//! This is the in-memory model of the backing store. Ingestion runs the
//! whole chain for one photo: decode, whole-image embedding, face
//! detection results, per-face crop, embedding and identity resolution.
//! Inference itself happens outside; the gallery receives its plain
//! results and makes every decision under a verified contract.
//!
//! Resolution here is serialized: each ingestion sees every face the
//! previous one persisted. A deployment that runs ingestions
//! concurrently against a shared store does not get this guarantee and
//! can create duplicate person clusters for one novel identity.

use vstd::prelude::*;
use crate::errors::CreatePhotoError;
use crate::fixedpoint::{abs_val, coords_bounded, COORD_LIMIT, DIM_LIMIT};
use crate::geometry::{
    boxes_overlap, denormalize_box, spec_boxes_overlap, spec_denorm, NormalizedBox, PixelBox,
};
use crate::imaging::{
    cut_image, decode_photo, decoded_height, decoded_width, image_decodable, RgbImageBuf,
    MAX_IMAGE_DIM,
};
use crate::models::{Face, ListPhoto, Person, Photo, PhotoForm};
use crate::resolver::{metric_distance, spec_metric_distance, MatchPolicy};
use crate::storage::{face_path, photo_path, spec_face_path, spec_photo_path};

verus! {

/// A face candidate as the recognition stage reports it: a confidence
/// score, a normalized bounding box, landmark points and the face's
/// embedding, all fixed-point.
pub struct RecognizedFaceOutput {
    pub score: i64,
    pub bbox: NormalizedBox,
    pub landmarks: Vec<(i64, i64)>,
    pub embedding: Vec<i64>,
}

/// A well-formed embedding of the gallery's dimensionality.
pub open spec fn emb_wf(e: Seq<i64>, dim: int) -> bool {
    e.len() == dim && coords_bounded(e, COORD_LIMIT as int)
}

/// The whole gallery state.
pub struct Gallery {
    pub dim: usize,
    pub policy: MatchPolicy,
    pub photos: Vec<Photo>,
    pub faces: Vec<Face>,
    pub persons: Vec<Person>,
    pub next_photo_id: i32,
    pub next_face_id: i32,
    pub next_person_id: i32,
}

impl Gallery {
    pub open spec fn wf(&self) -> bool {
        &&& 1 <= self.dim <= DIM_LIMIT
        &&& 1 <= self.next_photo_id
        &&& 1 <= self.next_face_id
        &&& 1 <= self.next_person_id
        &&& forall|i: int|
            0 <= i < self.photos@.len() ==> #[trigger] self.photos@[i].id < self.next_photo_id
        &&& forall|i: int, j: int|
            0 <= i < j < self.photos@.len() ==> #[trigger] self.photos@[i].id
                < #[trigger] self.photos@[j].id
        &&& forall|i: int|
            0 <= i < self.photos@.len() ==> match #[trigger] self.photos@[i].embedding {
                Some(e) => emb_wf(e@, self.dim as int),
                None => true,
            }
        &&& forall|i: int|
            0 <= i < self.faces@.len() ==> #[trigger] self.faces@[i].id < self.next_face_id
        &&& forall|i: int, j: int|
            0 <= i < j < self.faces@.len() ==> #[trigger] self.faces@[i].id
                < #[trigger] self.faces@[j].id
        &&& forall|i: int|
            0 <= i < self.faces@.len() ==> match #[trigger] self.faces@[i].embedding {
                Some(e) => emb_wf(e@, self.dim as int),
                None => true,
            }
        &&& forall|i: int|
            0 <= i < self.persons@.len() ==> #[trigger] self.persons@[i].id
                < self.next_person_id
        &&& forall|i: int, j: int|
            0 <= i < j < self.persons@.len() ==> #[trigger] self.persons@[i].id
                < #[trigger] self.persons@[j].id
    }

    /// An empty gallery for embeddings of dimensionality `dim`.
    pub fn new(dim: usize, policy: MatchPolicy) -> (r: Gallery)
        requires
            1 <= dim <= DIM_LIMIT,
        ensures
            r.wf(),
            r.dim == dim,
            r.policy == policy,
            r.photos@.len() == 0,
            r.faces@.len() == 0,
            r.persons@.len() == 0,
            r.next_photo_id == 1 && r.next_face_id == 1 && r.next_person_id == 1,
    {
        Gallery {
            dim,
            policy,
            photos: Vec::new(),
            faces: Vec::new(),
            persons: Vec::new(),
            next_photo_id: 1,
            next_face_id: 1,
            next_person_id: 1,
        }
    }
}

/// A face takes part in identity resolution only once it carries both a
/// person and an embedding.
pub open spec fn face_candidate(f: Face) -> bool {
    f.person_id is Some && f.embedding is Some
}

/// The embedding a candidate face carries.
pub open spec fn face_emb(f: Face) -> Seq<i64> {
    match f.embedding {
        Some(e) => e@,
        None => Seq::empty(),
    }
}

/// The person a candidate face carries.
pub open spec fn face_pid(f: Face) -> i32 {
    match f.person_id {
        Some(p) => p,
        None => 0,
    }
}

/// The nearest identified face to `e`: index and distance. Ties go to
/// the earliest-inserted face, which makes the query deterministic.
pub open spec fn spec_nearest_candidate(faces: Seq<Face>, e: Seq<i64>, policy: MatchPolicy)
    -> Option<(int, int)>
    decreases faces.len(),
{
    if faces.len() == 0 {
        None
    } else {
        let prev = spec_nearest_candidate(faces.drop_last(), e, policy);
        let i = faces.len() - 1;
        if face_candidate(faces.last()) {
            let d = spec_metric_distance(policy.metric, face_emb(faces.last()), e);
            match prev {
                None => Some((i as int, d)),
                Some(p) => if d < p.1 {
                    Some((i as int, d))
                } else {
                    Some(p)
                },
            }
        } else {
            prev
        }
    }
}

/// The person an embedding resolves to against an unchanged corpus:
/// the nearest identified face's person if its distance is within the
/// threshold, nothing otherwise.
pub open spec fn spec_resolution(faces: Seq<Face>, e: Seq<i64>, policy: MatchPolicy) -> Option<
    i32,
> {
    match spec_nearest_candidate(faces, e, policy) {
        None => None,
        Some(p) => if p.1 <= policy.threshold {
            Some(face_pid(faces[p.0]))
        } else {
            None
        },
    }
}

/// The pixel box a normalized box denormalizes to against a `w` by `h`
/// image.
pub open spec fn spec_pixel_box(b: NormalizedBox, w: int, h: int) -> PixelBox {
    PixelBox {
        x_tl: spec_denorm(b.x_tl as int, w) as u32,
        y_tl: spec_denorm(b.y_tl as int, h) as u32,
        x_br: spec_denorm(b.x_br as int, w) as u32,
        y_br: spec_denorm(b.y_br as int, h) as u32,
    }
}

/// The detection's embedding has the gallery's dimensionality.
pub open spec fn det_dim_ok(det: RecognizedFaceOutput, dim: int) -> bool {
    det.embedding@.len() == dim
}

/// The detection is geometrically usable against a `w` by `h` photo:
/// its box is a valid normalized box, its embedding coordinates are in
/// range, and the denormalized box spans at least one pixel each way.
pub open spec fn det_geom_ok(det: RecognizedFaceOutput, w: int, h: int) -> bool {
    &&& det.bbox.spec_valid()
    &&& coords_bounded(det.embedding@, COORD_LIMIT as int)
    &&& spec_pixel_box(det.bbox, w, h).spec_cuttable()
}

pub open spec fn all_dims_ok(dets: Seq<RecognizedFaceOutput>, dim: int) -> bool {
    forall|k: int| 0 <= k < dets.len() ==> det_dim_ok(#[trigger] dets[k], dim)
}

pub open spec fn all_geom_ok(dets: Seq<RecognizedFaceOutput>, w: int, h: int) -> bool {
    forall|k: int| 0 <= k < dets.len() ==> det_geom_ok(#[trigger] dets[k], w, h)
}

pub open spec fn photo_exists(photos: Seq<Photo>, id: i32) -> bool {
    exists|i: int| 0 <= i < photos.len() && #[trigger] photos[i].id == id
}

/// Resolving `e` against `faces` founds a new person cluster.
pub open spec fn creates_person(faces: Seq<Face>, e: Seq<i64>, policy: MatchPolicy) -> bool {
    spec_resolution(faces, e, policy) is None
}

/// The person id `e` ends up with: the matched person, or the fresh id.
pub open spec fn assigned_pid(faces: Seq<Face>, e: Seq<i64>, policy: MatchPolicy, fresh: i32)
    -> i32 {
    match spec_resolution(faces, e, policy) {
        Some(pid) => pid,
        None => fresh,
    }
}

/// How many of the first `k` detections found a new person, when they
/// were ingested one by one on top of the first `base` faces of `all`.
pub open spec fn created_count(
    all: Seq<Face>,
    dets: Seq<RecognizedFaceOutput>,
    policy: MatchPolicy,
    base: int,
    k: int,
) -> int
    decreases k,
{
    if k <= 0 {
        0
    } else {
        created_count(all, dets, policy, base, k - 1) + if creates_person(
            all.take(base + k - 1),
            dets[k - 1].embedding@,
            policy,
        ) {
            1int
        } else {
            0int
        }
    }
}

/// The face row detection `k` was persisted as: its fresh id, its
/// photo, its pixel box, its embedding, its crop path, and the person
/// resolved against every face ingested before it.
pub open spec fn ingested_face_ok(
    all: Seq<Face>,
    dets: Seq<RecognizedFaceOutput>,
    policy: MatchPolicy,
    base: int,
    k: int,
    photo_id: i32,
    nf0: int,
    np0: int,
    w: int,
    h: int,
) -> bool {
    let f = all[base + k];
    let prior = all.take(base + k);
    let e = dets[k].embedding@;
    &&& f.id == nf0 + k
    &&& f.photo_id == photo_id
    &&& (f.embedding matches Some(emb) && emb@ == e)
    &&& f.bbox == Some(spec_pixel_box(dets[k].bbox, w, h))
    &&& (f.path matches Some(p) && p@ == spec_face_path(nf0 + k))
    &&& f.person_id == Some(
        assigned_pid(prior, e, policy, (np0 + created_count(all, dets, policy, base, k)) as i32),
    )
}

/// The person record founded by detection `k`, if it founded one:
/// titled "Unknown", its avatar the founding face's crop.
pub open spec fn created_person_ok(
    persons: Seq<Person>,
    all: Seq<Face>,
    dets: Seq<RecognizedFaceOutput>,
    policy: MatchPolicy,
    base: int,
    plen0: int,
    k: int,
    nf0: int,
    np0: int,
) -> bool {
    creates_person(all.take(base + k), dets[k].embedding@, policy) ==> {
        let cc = created_count(all, dets, policy, base, k);
        let p = persons[plen0 + cc];
        &&& p.id == np0 + cc
        &&& p.title@ == "Unknown"@
        &&& p.avatar@ == spec_face_path(nf0 + k)
    }
}

/// `created_count` reads only the prefix of `all` that was already
/// ingested, so extending `all` does not change it.
proof fn lemma_created_count_stable(
    a: Seq<Face>,
    b: Seq<Face>,
    dets: Seq<RecognizedFaceOutput>,
    policy: MatchPolicy,
    base: int,
    k: int,
)
    requires
        0 <= base,
        0 <= k,
        base + k <= a.len(),
        a.len() <= b.len(),
        a == b.take(a.len() as int),
    ensures
        created_count(a, dets, policy, base, k) == created_count(b, dets, policy, base, k),
    decreases k,
{
    if k > 0 {
        lemma_created_count_stable(a, b, dets, policy, base, k - 1);
        assert(a.take(base + k - 1) =~= b.take(base + k - 1));
    }
}

impl Gallery {
    /// The nearest already-identified face to `e`, as the similarity
    /// index reports it for identity resolution: its index and its
    /// distance under the gallery's policy.
    pub fn nearest_face(&self, e: &Vec<i64>) -> (r: Option<(usize, i64)>)
        requires
            self.wf(),
            emb_wf(e@, self.dim as int),
        ensures
            match r {
                None => spec_nearest_candidate(self.faces@, e@, self.policy) is None,
                Some((i, d)) => {
                    &&& spec_nearest_candidate(self.faces@, e@, self.policy) == Some(
                        (i as int, d as int),
                    )
                    &&& i < self.faces@.len()
                },
            },
    {
        let n = self.faces.len();
        let mut best: Option<(usize, i64)> = None;
        let mut i: usize = 0;
        while i < n
            invariant
                i <= n,
                n == self.faces@.len(),
                self.wf(),
                emb_wf(e@, self.dim as int),
                match best {
                    None => spec_nearest_candidate(self.faces@.take(i as int), e@, self.policy)
                        is None,
                    Some((bi, bd)) => {
                        &&& spec_nearest_candidate(self.faces@.take(i as int), e@, self.policy)
                            == Some((bi as int, bd as int))
                        &&& bi < i
                    },
                },
            decreases n - i,
        {
            proof {
                assert(self.faces@.take(i as int + 1).drop_last() =~= self.faces@.take(i as int));
                assert(self.faces@.take(i as int + 1).last() == self.faces@[i as int]);
            }
            let f = &self.faces[i];
            if f.person_id.is_some() && f.embedding.is_some() {
                let emb = f.embedding.as_ref().unwrap();
                let d = metric_distance(&self.policy.metric, emb, e);
                match best {
                    None => {
                        best = Some((i, d));
                    },
                    Some((_bi, bd)) => {
                        if d < bd {
                            best = Some((i, d));
                        }
                    },
                }
            }
            i = i + 1;
        }
        proof {
            assert(self.faces@.take(n as int) =~= self.faces@);
        }
        best
    }
}

/// A nearest-candidate answer names a real candidate face and carries
/// its exact distance.
proof fn lemma_nearest_props(faces: Seq<Face>, e: Seq<i64>, policy: MatchPolicy)
    ensures
        match spec_nearest_candidate(faces, e, policy) {
            None => true,
            Some(p) => {
                &&& 0 <= p.0 < faces.len()
                &&& face_candidate(faces[p.0])
                &&& p.1 == spec_metric_distance(policy.metric, face_emb(faces[p.0]), e)
            },
        },
    decreases faces.len(),
{
    if faces.len() > 0 {
        lemma_nearest_props(faces.drop_last(), e, policy);
    }
}

/// The crop of detection `det` against a `w` by `h` photo: exactly the
/// denormalized box's region.
pub open spec fn crop_ok(c: RgbImageBuf, det: RecognizedFaceOutput, w: int, h: int) -> bool {
    let pb = spec_pixel_box(det.bbox, w, h);
    &&& c.wf()
    &&& c.width == pb.x_br - pb.x_tl
    &&& c.height == pb.y_br - pb.y_tl
}

/// Two gallery states hold the same records and counters.
pub open spec fn gallery_unchanged(a: Gallery, b: Gallery) -> bool {
    &&& a.dim == b.dim
    &&& a.policy == b.policy
    &&& a.photos@ == b.photos@
    &&& a.faces@ == b.faces@
    &&& a.persons@ == b.persons@
    &&& a.next_photo_id == b.next_photo_id
    &&& a.next_face_id == b.next_face_id
    &&& a.next_person_id == b.next_person_id
}

/// There is room to assign `n` more face ids and person ids.
pub open spec fn ids_available(g: Gallery, n: int) -> bool {
    g.next_face_id + n <= i32::MAX && g.next_person_id + n <= i32::MAX
}

fn check_coords(v: &Vec<i64>) -> (r: bool)
    ensures
        r == coords_bounded(v@, COORD_LIMIT as int),
{
    let n = v.len();
    let mut i: usize = 0;
    while i < n
        invariant
            i <= n,
            n == v@.len(),
            forall|j: int| 0 <= j < i ==> abs_val(#[trigger] v@[j] as int) <= COORD_LIMIT as int,
        decreases n - i,
    {
        if v[i] > COORD_LIMIT || v[i] < -COORD_LIMIT {
            return false;
        }
        i = i + 1;
    }
    true
}

fn clone_embedding(v: &Vec<i64>) -> (r: Vec<i64>)
    ensures
        r@ == v@,
{
    let r = v.clone();
    proof {
        assert(r@ =~= v@);
    }
    r
}

/// The created-person count never shrinks and never outruns the number
/// of detections counted.
proof fn lemma_created_count_mono(
    all: Seq<Face>,
    dets: Seq<RecognizedFaceOutput>,
    policy: MatchPolicy,
    base: int,
    j: int,
    k: int,
)
    requires
        0 <= j <= k,
    ensures
        0 <= created_count(all, dets, policy, base, j) <= created_count(
            all,
            dets,
            policy,
            base,
            k,
        ) <= k,
    decreases k,
{
    if k > 0 {
        if j == k {
            lemma_created_count_mono(all, dets, policy, base, 0, k - 1);
        } else {
            lemma_created_count_mono(all, dets, policy, base, j, k - 1);
        }
    }
}

impl Gallery {
    /// Index of the photo with the given id, if it is stored.
    pub fn find_photo(&self, id: i32) -> (r: Option<usize>)
        ensures
            match r {
                Some(i) => i < self.photos@.len() && self.photos@[i as int].id == id,
                None => !photo_exists(self.photos@, id),
            },
    {
        let n = self.photos.len();
        let mut i: usize = 0;
        while i < n
            invariant
                i <= n,
                n == self.photos@.len(),
                forall|j: int| 0 <= j < i ==> #[trigger] self.photos@[j].id != id,
            decreases n - i,
        {
            if self.photos[i].id == id {
                return Some(i);
            }
            i = i + 1;
        }
        None
    }

    /// Run the per-face stage of ingestion for a stored photo: each
    /// detected face is cropped out of the photo, its identity is
    /// resolved against every face already identified — including the
    /// ones ingested moments earlier from this same photo — and the
    /// face row is persisted with its box, embedding, person and crop
    /// path. Founding faces create their person cluster on the spot.
    ///
    /// All detections are validated up front, so a failure leaves the
    /// gallery unchanged: no partial result is committed as success.
    pub fn cut_faces_and_save(
        &mut self,
        photo_id: i32,
        image: &RgbImageBuf,
        faces: &Vec<RecognizedFaceOutput>,
    ) -> (r: Result<Vec<RgbImageBuf>, CreatePhotoError>)
        requires
            old(self).wf(),
            image.wf(),
        ensures
            final(self).wf(),
            final(self).dim == old(self).dim,
            final(self).policy == old(self).policy,
            match r {
                Ok(crops) => {
                    let base = old(self).faces@.len() as int;
                    let plen0 = old(self).persons@.len() as int;
                    let nf0 = old(self).next_face_id as int;
                    let np0 = old(self).next_person_id as int;
                    let w = image.width as int;
                    let h = image.height as int;
                    let n = faces@.len() as int;
                    let total = created_count(final(self).faces@, faces@, old(self).policy, base, n);
                    &&& photo_exists(old(self).photos@, photo_id)
                    &&& all_dims_ok(faces@, old(self).dim as int)
                    &&& all_geom_ok(faces@, w, h)
                    &&& ids_available(*old(self), n)
                    &&& final(self).photos@ == old(self).photos@
                    &&& final(self).next_photo_id == old(self).next_photo_id
                    &&& final(self).faces@.len() == base + n
                    &&& final(self).faces@.take(base) == old(self).faces@
                    &&& final(self).next_face_id == old(self).next_face_id + n
                    &&& forall|k: int|
                        0 <= k < n ==> ingested_face_ok(
                            final(self).faces@,
                            faces@,
                            old(self).policy,
                            base,
                            k,
                            photo_id,
                            nf0,
                            np0,
                            w,
                            h,
                        )
                    &&& final(self).persons@.len() == plen0 + total
                    &&& final(self).persons@.take(plen0) == old(self).persons@
                    &&& final(self).next_person_id == np0 + total
                    &&& forall|k: int|
                        0 <= k < n ==> created_person_ok(
                            final(self).persons@,
                            final(self).faces@,
                            faces@,
                            old(self).policy,
                            base,
                            plen0,
                            k,
                            nf0,
                            np0,
                        )
                    &&& crops@.len() == n
                    &&& forall|k: int| 0 <= k < n ==> crop_ok(#[trigger] crops@[k], faces@[k], w, h)
                },
                Err(e) => {
                    &&& gallery_unchanged(*final(self), *old(self))
                    &&& match e {
                        CreatePhotoError::NotFoundError => !photo_exists(
                            old(self).photos@,
                            photo_id,
                        ),
                        CreatePhotoError::DimensionMismatch => photo_exists(
                            old(self).photos@,
                            photo_id,
                        ) && !all_dims_ok(faces@, old(self).dim as int),
                        CreatePhotoError::InferenceError => photo_exists(
                            old(self).photos@,
                            photo_id,
                        ) && all_dims_ok(faces@, old(self).dim as int) && !all_geom_ok(
                            faces@,
                            image.width as int,
                            image.height as int,
                        ),
                        CreatePhotoError::StoreError => photo_exists(old(self).photos@, photo_id)
                            && all_dims_ok(faces@, old(self).dim as int) && all_geom_ok(
                            faces@,
                            image.width as int,
                            image.height as int,
                        ) && !ids_available(*old(self), faces@.len() as int),
                        _ => false,
                    }
                },
            },
    {
        let n = faces.len();
        match self.find_photo(photo_id) {
            Some(_) => {},
            None => {
                return Err(CreatePhotoError::NotFoundError);
            },
        }
        assert(photo_exists(self.photos@, photo_id));
        // dimensionality gate: fail fast, never truncate or pad
        let mut k: usize = 0;
        while k < n
            invariant
                k <= n,
                n == faces@.len(),
                self.wf(),
                gallery_unchanged(*self, *old(self)),
                photo_exists(self.photos@, photo_id),
                forall|j: int| 0 <= j < k ==> det_dim_ok(#[trigger] faces@[j], self.dim as int),
            decreases n - k,
        {
            if faces[k].embedding.len() != self.dim {
                return Err(CreatePhotoError::DimensionMismatch);
            }
            k = k + 1;
        }
        // geometry gate
        let mut k2: usize = 0;
        while k2 < n
            invariant
                k2 <= n,
                n == faces@.len(),
                image.wf(),
                self.wf(),
                gallery_unchanged(*self, *old(self)),
                photo_exists(self.photos@, photo_id),
                all_dims_ok(faces@, self.dim as int),
                forall|j: int|
                    0 <= j < k2 ==> det_geom_ok(
                        #[trigger] faces@[j],
                        image.width as int,
                        image.height as int,
                    ),
            decreases n - k2,
        {
            let det = &faces[k2];
            if !det.bbox.valid() {
                return Err(CreatePhotoError::InferenceError);
            }
            if !check_coords(&det.embedding) {
                return Err(CreatePhotoError::InferenceError);
            }
            let pbox = denormalize_box(&det.bbox, image.width, image.height);
            proof {
                assert(pbox == spec_pixel_box(det.bbox, image.width as int, image.height as int));
            }
            if !pbox.cuttable() {
                return Err(CreatePhotoError::InferenceError);
            }
            k2 = k2 + 1;
        }
        // id headroom gate
        if n >= i32::MAX as usize || self.next_face_id > i32::MAX - (n as i32)
            || self.next_person_id > i32::MAX - (n as i32) {
            return Err(CreatePhotoError::StoreError);
        }
        let ghost g0 = *self;
        let ghost base = self.faces@.len() as int;
        let ghost plen0 = self.persons@.len() as int;
        let ghost nf0 = self.next_face_id as int;
        let ghost np0 = self.next_person_id as int;
        let ghost w = image.width as int;
        let ghost h = image.height as int;
        let mut crops: Vec<RgbImageBuf> = Vec::new();
        let ghost mut created: int = 0;
        let mut i: usize = 0;
        while i < n
            invariant
                i <= n,
                n == faces@.len(),
                n < i32::MAX,
                image.wf(),
                self.wf(),
                self.dim == g0.dim,
                self.policy == g0.policy,
                self.photos@ == g0.photos@,
                self.next_photo_id == g0.next_photo_id,
                g0.wf(),
                base == g0.faces@.len() as int,
                plen0 == g0.persons@.len() as int,
                nf0 == g0.next_face_id as int,
                np0 == g0.next_person_id as int,
                w == image.width as int,
                h == image.height as int,
                ids_available(g0, n as int),
                all_dims_ok(faces@, g0.dim as int),
                all_geom_ok(faces@, w, h),
                self.faces@.len() == base + i,
                self.faces@.take(base) == g0.faces@,
                self.next_face_id == nf0 + i,
                0 <= created <= i,
                created == created_count(self.faces@, faces@, g0.policy, base, i as int),
                self.persons@.len() == plen0 + created,
                self.persons@.take(plen0) == g0.persons@,
                self.next_person_id == np0 + created,
                forall|j: int|
                    0 <= j < i ==> ingested_face_ok(
                        self.faces@,
                        faces@,
                        g0.policy,
                        base,
                        j,
                        photo_id,
                        nf0,
                        np0,
                        w,
                        h,
                    ),
                forall|j: int|
                    0 <= j < i ==> created_person_ok(
                        self.persons@,
                        self.faces@,
                        faces@,
                        g0.policy,
                        base,
                        plen0,
                        j,
                        nf0,
                        np0,
                    ),
                crops@.len() == i,
                forall|j: int| 0 <= j < i ==> crop_ok(#[trigger] crops@[j], faces@[j], w, h),
            decreases n - i,
        {
            let det = &faces[i];
            let pbox = denormalize_box(&det.bbox, image.width, image.height);
            proof {
                assert(pbox == spec_pixel_box(det.bbox, w, h));
            }
            let crop = cut_image(image, &pbox);
            let fid = self.next_face_id;
            let nearest = self.nearest_face(&det.embedding);
            proof {
                lemma_nearest_props(self.faces@, det.embedding@, g0.policy);
            }
            let nearest_pid: Option<(i32, i64)> = match nearest {
                Some((bi, bd)) => Some((self.faces[bi].person_id.unwrap(), bd)),
                None => None,
            };
            let fresh = self.next_person_id;
            let decision = crate::resolver::resolve_match(nearest_pid, &self.policy, fresh);
            let ghost pre_faces = self.faces@;
            let ghost pre_persons = self.persons@;
            let (pid, founded): (i32, bool) = match decision {
                crate::resolver::Resolution::Matched(p) => (p, false),
                crate::resolver::Resolution::NewPerson(p) => (p, true),
            };
            proof {
                assert(founded == creates_person(pre_faces, det.embedding@, g0.policy));
                assert(pid == assigned_pid(pre_faces, det.embedding@, g0.policy, fresh));
            }
            if founded {
                let avatar = face_path(fid as u32);
                self.persons.push(Person { id: fresh, title: "Unknown".to_owned(), avatar });
                self.next_person_id = self.next_person_id + 1;
            }
            let fpath = face_path(fid as u32);
            self.faces.push(
                Face {
                    id: fid,
                    person_id: Some(pid),
                    photo_id,
                    embedding: Some(clone_embedding(&det.embedding)),
                    bbox: Some(pbox),
                    path: Some(fpath),
                },
            );
            self.next_face_id = self.next_face_id + 1;
            crops.push(crop);
            proof {
                let ghost created0 = created;
                let cur = self.faces@;
                let ii = i as int;
                assert(cur.take(base + ii) =~= pre_faces);
                assert(cur.take(base) =~= pre_faces.take(base));
                assert(self.persons@.take(plen0) =~= pre_persons.take(plen0));
                lemma_created_count_stable(pre_faces, cur, faces@, g0.policy, base, ii);
                assert(created0 == created_count(cur, faces@, g0.policy, base, ii));
                assert(np0 + created0 <= i32::MAX);
                assert(fresh == (np0 + created_count(cur, faces@, g0.policy, base, ii)) as i32);
                // the face pushed for detection i
                let f = cur[base + ii];
                assert(f.id == nf0 + ii);
                assert(f.photo_id == photo_id);
                assert(f.embedding matches Some(emb) && emb@ == faces@[ii].embedding@);
                assert(f.bbox == Some(spec_pixel_box(faces@[ii].bbox, w, h)));
                assert(f.path matches Some(p) && p@ == spec_face_path(nf0 + ii));
                assert(f.person_id == Some(
                    assigned_pid(
                        cur.take(base + ii),
                        faces@[ii].embedding@,
                        g0.policy,
                        (np0 + created_count(cur, faces@, g0.policy, base, ii)) as i32,
                    ),
                ));
                assert(ingested_face_ok(
                    cur,
                    faces@,
                    g0.policy,
                    base,
                    ii,
                    photo_id,
                    nf0,
                    np0,
                    w,
                    h,
                ));
                // earlier face rows are untouched by the push
                assert forall|j: int| 0 <= j < ii implies ingested_face_ok(
                    cur,
                    faces@,
                    g0.policy,
                    base,
                    j,
                    photo_id,
                    nf0,
                    np0,
                    w,
                    h,
                ) by {
                    assert(cur.take(base + j) =~= pre_faces.take(base + j));
                    assert(cur[base + j] == pre_faces[base + j]);
                    lemma_created_count_stable(pre_faces, cur, faces@, g0.policy, base, j);
                    assert(ingested_face_ok(
                        pre_faces,
                        faces@,
                        g0.policy,
                        base,
                        j,
                        photo_id,
                        nf0,
                        np0,
                        w,
                        h,
                    ));
                }
                // person rows: earlier ones untouched, the founded one described
                assert forall|j: int| 0 <= j < ii + 1 implies created_person_ok(
                    self.persons@,
                    cur,
                    faces@,
                    g0.policy,
                    base,
                    plen0,
                    j,
                    nf0,
                    np0,
                ) by {
                    assert(cur.take(base + j) =~= pre_faces.take(base + j));
                    lemma_created_count_stable(pre_faces, cur, faces@, g0.policy, base, j);
                    if j < ii {
                        if creates_person(cur.take(base + j), faces@[j].embedding@, g0.policy) {
                            let cc = created_count(cur, faces@, g0.policy, base, j);
                            assert(created_count(cur, faces@, g0.policy, base, j + 1)
                                == created_count(pre_faces, faces@, g0.policy, base, j + 1)) by {
                                lemma_created_count_stable(
                                    pre_faces,
                                    cur,
                                    faces@,
                                    g0.policy,
                                    base,
                                    j + 1,
                                );
                            }
                            lemma_created_count_mono(cur, faces@, g0.policy, base, j, j + 1);
                            lemma_created_count_mono(cur, faces@, g0.policy, base, j + 1, ii);
                            assert(created_count(cur, faces@, g0.policy, base, j + 1) == cc + 1);
                            assert(0 <= cc && cc + 1 <= created0);
                            assert(self.persons@[plen0 + cc] == pre_persons[plen0 + cc]);
                            assert(created_person_ok(
                                pre_persons,
                                pre_faces,
                                faces@,
                                g0.policy,
                                base,
                                plen0,
                                j,
                                nf0,
                                np0,
                            ));
                        }
                    } else {
                        if founded {
                            assert(self.persons@[plen0 + created0].id == np0 + created0);
                        }
                    }
                }
                created = created + if founded {
                    1int
                } else {
                    0int
                };
                assert(created == created_count(cur, faces@, g0.policy, base, ii + 1));
            }
            i = i + 1;
        }
        proof {
            assert(self.faces@.take(base) == g0.faces@);
        }
        Ok(crops)
    }
}

/// The photo row the upload was persisted as: a fresh id, the form's
/// title and album, the uploader, the storage path derived from the id,
/// and the whole-image embedding attached before the row counts as
/// complete.
pub open spec fn photo_appended(
    old_g: Gallery,
    new_photos: Seq<Photo>,
    new_next: i32,
    title: Seq<char>,
    album_id: i32,
    uid: i32,
    emb: Seq<i64>,
) -> bool {
    let p = new_photos.last();
    &&& new_photos.len() == old_g.photos@.len() + 1
    &&& new_photos.take(old_g.photos@.len() as int) == old_g.photos@
    &&& p.id == old_g.next_photo_id
    &&& (p.title matches Some(t) && t@ == title)
    &&& p.user_id == uid
    &&& p.album_id == Some(album_id)
    &&& (p.path matches Some(pp) && pp@ == spec_photo_path(old_g.next_photo_id as int))
    &&& (p.embedding matches Some(e) && e@ == emb)
    &&& new_next == old_g.next_photo_id + 1
}

/// The uploaded bytes decode to a usable photo.
pub open spec fn upload_decodes(bytes: Seq<u8>) -> bool {
    &&& image_decodable(bytes)
    &&& 1 <= decoded_width(bytes) <= MAX_IMAGE_DIM as int
    &&& 1 <= decoded_height(bytes) <= MAX_IMAGE_DIM as int
}

/// A listed photo carries the row's fields, embedding excluded.
pub open spec fn listed_photo(p: Photo, lp: ListPhoto) -> bool {
    &&& lp.id == p.id
    &&& match (lp.path, p.path) {
        (Some(a), Some(b)) => a@ == b@,
        (None, None) => true,
        _ => false,
    }
    &&& match (lp.title, p.title) {
        (Some(a), Some(b)) => a@ == b@,
        (None, None) => true,
        _ => false,
    }
    &&& lp.user_id == p.user_id
    &&& lp.album_id == p.album_id
}

/// The photos that remain when `id` is removed, in order.
pub open spec fn without_photo(s: Seq<Photo>, id: i32) -> Seq<Photo>
    decreases s.len(),
{
    if s.len() == 0 {
        Seq::empty()
    } else {
        let rest = without_photo(s.drop_last(), id);
        if s.last().id == id {
            rest
        } else {
            rest.push(s.last())
        }
    }
}

/// The faces that remain when photo `id` is removed: deleting a photo
/// cascades to its faces.
pub open spec fn without_faces_of(s: Seq<Face>, photo_id: i32) -> Seq<Face>
    decreases s.len(),
{
    if s.len() == 0 {
        Seq::empty()
    } else {
        let rest = without_faces_of(s.drop_last(), photo_id);
        if s.last().photo_id == photo_id {
            rest
        } else {
            rest.push(s.last())
        }
    }
}

/// Removal keeps every remaining photo a photo of the original list, in
/// the original id order.
proof fn lemma_without_photo_sub(s: Seq<Photo>, id: i32)
    requires
        forall|a: int, b: int|
            0 <= a < b < s.len() ==> #[trigger] s[a].id < #[trigger] s[b].id,
    ensures
        without_photo(s, id).len() <= s.len(),
        forall|k: int|
            0 <= k < without_photo(s, id).len() ==> exists|j: int|
                0 <= j < s.len() && #[trigger] without_photo(s, id)[k] == s[j],
        forall|a: int, b: int|
            0 <= a < b < without_photo(s, id).len() ==> #[trigger] without_photo(s, id)[a].id
                < #[trigger] without_photo(s, id)[b].id,
    decreases s.len(),
{
    if s.len() > 0 {
        assert(forall|a: int, b: int|
            0 <= a < b < s.drop_last().len() ==> #[trigger] s.drop_last()[a].id
                < #[trigger] s.drop_last()[b].id);
        lemma_without_photo_sub(s.drop_last(), id);
        let rest = without_photo(s.drop_last(), id);
        let r = without_photo(s, id);
        assert forall|k: int| 0 <= k < r.len() implies exists|j: int|
            0 <= j < s.len() && #[trigger] r[k] == s[j] by {
            if k < rest.len() {
                let j = choose|j: int| 0 <= j < s.drop_last().len() && rest[k] == s.drop_last()[j];
                assert(r[k] == s[j]);
            } else {
                assert(r[k] == s[s.len() - 1]);
            }
        }
        assert forall|a: int, b: int| 0 <= a < b < r.len() implies #[trigger] r[a].id
            < #[trigger] r[b].id by {
            if b < rest.len() {
            } else if s.last().id != id && b == rest.len() {
                let j = choose|j: int| 0 <= j < s.drop_last().len() && rest[a] == s.drop_last()[j];
                assert(r[a].id == s[j].id);
                assert(s[j].id < s[s.len() - 1].id);
            }
        }
    }
}

proof fn lemma_without_faces_sub(s: Seq<Face>, photo_id: i32)
    requires
        forall|a: int, b: int|
            0 <= a < b < s.len() ==> #[trigger] s[a].id < #[trigger] s[b].id,
    ensures
        without_faces_of(s, photo_id).len() <= s.len(),
        forall|k: int|
            0 <= k < without_faces_of(s, photo_id).len() ==> exists|j: int|
                0 <= j < s.len() && #[trigger] without_faces_of(s, photo_id)[k] == s[j],
        forall|a: int, b: int|
            0 <= a < b < without_faces_of(s, photo_id).len() ==> #[trigger] without_faces_of(
                s,
                photo_id,
            )[a].id < #[trigger] without_faces_of(s, photo_id)[b].id,
    decreases s.len(),
{
    if s.len() > 0 {
        assert(forall|a: int, b: int|
            0 <= a < b < s.drop_last().len() ==> #[trigger] s.drop_last()[a].id
                < #[trigger] s.drop_last()[b].id);
        lemma_without_faces_sub(s.drop_last(), photo_id);
        let rest = without_faces_of(s.drop_last(), photo_id);
        let r = without_faces_of(s, photo_id);
        assert forall|k: int| 0 <= k < r.len() implies exists|j: int|
            0 <= j < s.len() && #[trigger] r[k] == s[j] by {
            if k < rest.len() {
                let j = choose|j: int|
                    0 <= j < s.drop_last().len() && rest[k] == s.drop_last()[j];
                assert(r[k] == s[j]);
            } else {
                assert(r[k] == s[s.len() - 1]);
            }
        }
        assert forall|a: int, b: int| 0 <= a < b < r.len() implies #[trigger] r[a].id
            < #[trigger] r[b].id by {
            if b < rest.len() {
            } else if s.last().photo_id != photo_id && b == rest.len() {
                let j = choose|j: int|
                    0 <= j < s.drop_last().len() && rest[a] == s.drop_last()[j];
                assert(r[a].id == s[j].id);
                assert(s[j].id < s[s.len() - 1].id);
            }
        }
    }
}

impl Gallery {
    /// Ingest one uploaded photo, start to end: decode the bytes,
    /// persist the photo row with its whole-image embedding and storage
    /// path, then run the per-face stage on the detection results. The
    /// face crops are returned for the caller to store.
    ///
    /// A failure before the photo row is persisted leaves the gallery
    /// unchanged; a failure in the per-face stage leaves the photo row
    /// in place and no face or person rows — the partial state is
    /// visible to the caller through the error's stage.
    pub fn create_photo(
        &mut self,
        photo_form: PhotoForm,
        uid: i32,
        photo_embedding: &Vec<i64>,
        faces: &Vec<RecognizedFaceOutput>,
    ) -> (r: Result<Vec<RgbImageBuf>, CreatePhotoError>)
        requires
            old(self).wf(),
        ensures
            final(self).wf(),
            final(self).dim == old(self).dim,
            final(self).policy == old(self).policy,
            match r {
                Ok(crops) => {
                    let base = old(self).faces@.len() as int;
                    let plen0 = old(self).persons@.len() as int;
                    let nf0 = old(self).next_face_id as int;
                    let np0 = old(self).next_person_id as int;
                    let w = decoded_width(photo_form.photo_image@);
                    let h = decoded_height(photo_form.photo_image@);
                    let n = faces@.len() as int;
                    let total = created_count(
                        final(self).faces@,
                        faces@,
                        old(self).policy,
                        base,
                        n,
                    );
                    &&& upload_decodes(photo_form.photo_image@)
                    &&& emb_wf(photo_embedding@, old(self).dim as int)
                    &&& all_dims_ok(faces@, old(self).dim as int)
                    &&& all_geom_ok(faces@, w, h)
                    &&& old(self).next_photo_id < i32::MAX
                    &&& ids_available(*old(self), n)
                    &&& photo_appended(
                        *old(self),
                        final(self).photos@,
                        final(self).next_photo_id,
                        photo_form.title@,
                        photo_form.album_id,
                        uid,
                        photo_embedding@,
                    )
                    &&& final(self).faces@.len() == base + n
                    &&& final(self).faces@.take(base) == old(self).faces@
                    &&& final(self).next_face_id == old(self).next_face_id + n
                    &&& forall|k: int|
                        0 <= k < n ==> ingested_face_ok(
                            final(self).faces@,
                            faces@,
                            old(self).policy,
                            base,
                            k,
                            old(self).next_photo_id,
                            nf0,
                            np0,
                            w,
                            h,
                        )
                    &&& final(self).persons@.len() == plen0 + total
                    &&& final(self).persons@.take(plen0) == old(self).persons@
                    &&& final(self).next_person_id == np0 + total
                    &&& forall|k: int|
                        0 <= k < n ==> created_person_ok(
                            final(self).persons@,
                            final(self).faces@,
                            faces@,
                            old(self).policy,
                            base,
                            plen0,
                            k,
                            nf0,
                            np0,
                        )
                    &&& crops@.len() == n
                    &&& forall|k: int| 0 <= k < n ==> crop_ok(#[trigger] crops@[k], faces@[k], w, h)
                },
                Err(e) => {
                    let w = decoded_width(photo_form.photo_image@);
                    let h = decoded_height(photo_form.photo_image@);
                    match e {
                        CreatePhotoError::DecodeError => gallery_unchanged(
                            *final(self),
                            *old(self),
                        ) && !upload_decodes(photo_form.photo_image@),
                        CreatePhotoError::DimensionMismatch => upload_decodes(
                            photo_form.photo_image@,
                        ) && (
                        (photo_embedding@.len() != old(self).dim && gallery_unchanged(
                            *final(self),
                            *old(self),
                        )) || (emb_wf(photo_embedding@, old(self).dim as int) && old(
                            self,
                        ).next_photo_id < i32::MAX && !all_dims_ok(faces@, old(self).dim as int)
                            && photo_only_ingested(*old(self), *final(self), photo_form.title@, photo_form.album_id, uid, photo_embedding@))),
                        CreatePhotoError::InferenceError => upload_decodes(
                            photo_form.photo_image@,
                        ) && photo_embedding@.len() == old(self).dim && (
                        (!coords_bounded(photo_embedding@, COORD_LIMIT as int)
                            && gallery_unchanged(*final(self), *old(self))) || (emb_wf(
                            photo_embedding@,
                            old(self).dim as int,
                        ) && old(self).next_photo_id < i32::MAX && all_dims_ok(
                            faces@,
                            old(self).dim as int,
                        ) && !all_geom_ok(faces@, w, h) && photo_only_ingested(*old(self), *final(self), photo_form.title@, photo_form.album_id, uid, photo_embedding@))),
                        CreatePhotoError::StoreError => upload_decodes(photo_form.photo_image@)
                            && emb_wf(photo_embedding@, old(self).dim as int) && (
                        (old(self).next_photo_id == i32::MAX && gallery_unchanged(
                            *final(self),
                            *old(self),
                        )) || (old(self).next_photo_id < i32::MAX && all_dims_ok(
                            faces@,
                            old(self).dim as int,
                        ) && all_geom_ok(faces@, w, h) && !ids_available(
                            *old(self),
                            faces@.len() as int,
                        ) && photo_only_ingested(*old(self), *final(self), photo_form.title@, photo_form.album_id, uid, photo_embedding@))),
                        _ => false,
                    }
                },
            },
    {
        let img = match decode_photo(&photo_form.photo_image) {
            Ok(i) => i,
            Err(e) => {
                return Err(e);
            },
        };
        if photo_embedding.len() != self.dim {
            return Err(CreatePhotoError::DimensionMismatch);
        }
        if !check_coords(photo_embedding) {
            return Err(CreatePhotoError::InferenceError);
        }
        if self.next_photo_id == i32::MAX {
            return Err(CreatePhotoError::StoreError);
        }
        let pid = self.next_photo_id;
        let path = photo_path(pid as u32);
        self.photos.push(
            Photo {
                id: pid,
                path: Some(path),
                title: Some(photo_form.title),
                user_id: uid,
                album_id: Some(photo_form.album_id),
                embedding: Some(clone_embedding(photo_embedding)),
            },
        );
        self.next_photo_id = pid + 1;
        proof {
            assert(self.photos@.take(old(self).photos@.len() as int) =~= old(self).photos@);
            assert(self.photos@[self.photos@.len() - 1].id == pid);
        }
        self.cut_faces_and_save(pid, &img, faces)
    }

    /// The photo with the given id, as listed to clients.
    pub fn get_photo_by_id(&self, photo_id: i32) -> (r: Option<ListPhoto>)
        ensures
            match r {
                Some(lp) => exists|i: int|
                    0 <= i < self.photos@.len() && #[trigger] self.photos@[i].id == photo_id
                        && listed_photo(self.photos@[i], lp),
                None => !photo_exists(self.photos@, photo_id),
            },
    {
        match self.find_photo(photo_id) {
            None => None,
            Some(i) => {
                let p = &self.photos[i];
                Some(
                    ListPhoto {
                        id: p.id,
                        path: clone_opt_string(&p.path),
                        title: clone_opt_string(&p.title),
                        user_id: p.user_id,
                        album_id: p.album_id,
                    },
                )
            },
        }
    }

    /// Remove a photo and, with it, every face detected in it. Person
    /// clusters stay: identity outlives any single photo.
    pub fn delete_photo_by_id(&mut self, photo_id: i32) -> (r: Result<(), CreatePhotoError>)
        requires
            old(self).wf(),
        ensures
            final(self).wf(),
            final(self).dim == old(self).dim,
            final(self).policy == old(self).policy,
            match r {
                Ok(()) => {
                    &&& photo_exists(old(self).photos@, photo_id)
                    &&& final(self).photos@ == without_photo(old(self).photos@, photo_id)
                    &&& final(self).faces@ == without_faces_of(old(self).faces@, photo_id)
                    &&& final(self).persons@ == old(self).persons@
                    &&& final(self).next_photo_id == old(self).next_photo_id
                    &&& final(self).next_face_id == old(self).next_face_id
                    &&& final(self).next_person_id == old(self).next_person_id
                },
                Err(e) => {
                    &&& e == CreatePhotoError::NotFoundError
                    &&& !photo_exists(old(self).photos@, photo_id)
                    &&& gallery_unchanged(*final(self), *old(self))
                },
            },
    {
        match self.find_photo(photo_id) {
            None => {
                return Err(CreatePhotoError::NotFoundError);
            },
            Some(_) => {},
        }
        assert(photo_exists(self.photos@, photo_id));
        let ghost orig_photos = self.photos@;
        let ghost orig_faces = self.faces@;
        let mut i: usize = 0;
        let ghost mut oi: int = 0;
        while i < self.photos.len()
            invariant
                0 <= oi <= orig_photos.len(),
                i as int == without_photo(orig_photos.take(oi), photo_id).len(),
                self.photos@ == without_photo(orig_photos.take(oi), photo_id)
                    + orig_photos.skip(oi),
                orig_photos == old(self).photos@,
                self.faces@ == old(self).faces@,
                self.persons@ == old(self).persons@,
                self.dim == old(self).dim,
                self.policy == old(self).policy,
                self.next_photo_id == old(self).next_photo_id,
                self.next_face_id == old(self).next_face_id,
                self.next_person_id == old(self).next_person_id,
            decreases orig_photos.len() - oi,
        {
            proof {
                assert(orig_photos.take(oi + 1).drop_last() =~= orig_photos.take(oi));
                assert(orig_photos.take(oi + 1).last() == orig_photos[oi]);
                assert(self.photos@[i as int] == orig_photos[oi]);
            }
            if self.photos[i].id == photo_id {
                self.photos.remove(i);
                proof {
                    oi = oi + 1;
                    assert(self.photos@ =~= without_photo(orig_photos.take(oi), photo_id)
                        + orig_photos.skip(oi));
                }
            } else {
                i = i + 1;
                proof {
                    oi = oi + 1;
                    assert(self.photos@ =~= without_photo(orig_photos.take(oi), photo_id)
                        + orig_photos.skip(oi));
                }
            }
        }
        proof {
            assert(orig_photos.take(orig_photos.len() as int) =~= orig_photos);
            assert(orig_photos.skip(oi).len() == 0);
            assert(self.photos@ =~= without_photo(orig_photos, photo_id));
        }
        let mut j: usize = 0;
        let ghost mut oj: int = 0;
        while j < self.faces.len()
            invariant
                0 <= oj <= orig_faces.len(),
                j as int == without_faces_of(orig_faces.take(oj), photo_id).len(),
                self.faces@ == without_faces_of(orig_faces.take(oj), photo_id)
                    + orig_faces.skip(oj),
                orig_faces == old(self).faces@,
                self.photos@ == without_photo(old(self).photos@, photo_id),
                self.persons@ == old(self).persons@,
                self.dim == old(self).dim,
                self.policy == old(self).policy,
                self.next_photo_id == old(self).next_photo_id,
                self.next_face_id == old(self).next_face_id,
                self.next_person_id == old(self).next_person_id,
            decreases orig_faces.len() - oj,
        {
            proof {
                assert(orig_faces.take(oj + 1).drop_last() =~= orig_faces.take(oj));
                assert(orig_faces.take(oj + 1).last() == orig_faces[oj]);
                assert(self.faces@[j as int] == orig_faces[oj]);
            }
            if self.faces[j].photo_id == photo_id {
                self.faces.remove(j);
                proof {
                    oj = oj + 1;
                    assert(self.faces@ =~= without_faces_of(orig_faces.take(oj), photo_id)
                        + orig_faces.skip(oj));
                }
            } else {
                j = j + 1;
                proof {
                    oj = oj + 1;
                    assert(self.faces@ =~= without_faces_of(orig_faces.take(oj), photo_id)
                        + orig_faces.skip(oj));
                }
            }
        }
        proof {
            assert(orig_faces.take(orig_faces.len() as int) =~= orig_faces);
            assert(self.faces@ =~= without_faces_of(orig_faces, photo_id));
            lemma_without_photo_sub(orig_photos, photo_id);
            lemma_without_faces_sub(orig_faces, photo_id);
            let rp = without_photo(orig_photos, photo_id);
            assert forall|k: int| 0 <= k < rp.len() implies #[trigger] rp[k].id
                < self.next_photo_id && (match rp[k].embedding {
                Some(e) => emb_wf(e@, self.dim as int),
                None => true,
            }) by {
                let w = choose|w: int| 0 <= w < orig_photos.len() && rp[k] == orig_photos[w];
                assert(orig_photos[w].id < old(self).next_photo_id);
                assert(match orig_photos[w].embedding {
                    Some(e) => emb_wf(e@, old(self).dim as int),
                    None => true,
                });
            }
            let rf = without_faces_of(orig_faces, photo_id);
            assert forall|k: int| 0 <= k < rf.len() implies #[trigger] rf[k].id
                < self.next_face_id && (match rf[k].embedding {
                Some(e) => emb_wf(e@, self.dim as int),
                None => true,
            }) by {
                let w = choose|w: int| 0 <= w < orig_faces.len() && rf[k] == orig_faces[w];
                assert(orig_faces[w].id < old(self).next_face_id);
                assert(match orig_faces[w].embedding {
                    Some(e) => emb_wf(e@, old(self).dim as int),
                    None => true,
                });
            }
        }
        Ok(())
    }
}

/// The state after the photo row alone was persisted: the per-face
/// stage did not run to completion, so no face or person rows exist for
/// it — the documented partial state of a failed ingestion.
pub open spec fn photo_only_ingested(
    old_g: Gallery,
    new_g: Gallery,
    title: Seq<char>,
    album_id: i32,
    uid: i32,
    emb: Seq<i64>,
) -> bool {
    &&& photo_appended(old_g, new_g.photos@, new_g.next_photo_id, title, album_id, uid, emb)
    &&& new_g.faces@ == old_g.faces@
    &&& new_g.persons@ == old_g.persons@
    &&& new_g.next_face_id == old_g.next_face_id
    &&& new_g.next_person_id == old_g.next_person_id
}

/// The detections that survive a minimum-confidence cutoff, in order.
pub open spec fn confident_detections(s: Seq<RecognizedFaceOutput>, min_score: i64) -> Seq<
    RecognizedFaceOutput,
>
    decreases s.len(),
{
    if s.len() == 0 {
        Seq::empty()
    } else {
        let rest = confident_detections(s.drop_last(), min_score);
        if s.last().score >= min_score {
            rest.push(s.last())
        } else {
            rest
        }
    }
}

/// The detector returns every raw candidate unfiltered; this is the
/// explicit post-filter stage: only detections with confidence at
/// least `min_score` go on to cropping and identity resolution.
pub fn filter_detections(mut dets: Vec<RecognizedFaceOutput>, min_score: i64) -> (r: Vec<
    RecognizedFaceOutput,
>)
    ensures
        r@ == confident_detections(dets@, min_score),
{
    let ghost orig = dets@;
    let mut i: usize = 0;
    let ghost mut oi: int = 0;
    while i < dets.len()
        invariant
            0 <= oi <= orig.len(),
            i as int == confident_detections(orig.take(oi), min_score).len(),
            dets@ == confident_detections(orig.take(oi), min_score) + orig.skip(oi),
        decreases orig.len() - oi,
    {
        proof {
            assert(orig.take(oi + 1).drop_last() =~= orig.take(oi));
            assert(orig.take(oi + 1).last() == orig[oi]);
            assert(dets@[i as int] == orig[oi]);
        }
        if dets[i].score >= min_score {
            i = i + 1;
            proof {
                oi = oi + 1;
                assert(dets@ =~= confident_detections(orig.take(oi), min_score) + orig.skip(oi));
            }
        } else {
            dets.remove(i);
            proof {
                oi = oi + 1;
                assert(dets@ =~= confident_detections(orig.take(oi), min_score) + orig.skip(oi));
            }
        }
    }
    proof {
        assert(orig.take(orig.len() as int) =~= orig);
        assert(dets@ =~= confident_detections(orig, min_score));
    }
    dets
}

/// The indices of the detections a greedy overlap suppression keeps
/// among the first `n`: a detection survives unless its box overlaps —
/// at least `thr` by intersection over union — the box of an earlier
/// survivor.
pub open spec fn nms_kept(dets: Seq<RecognizedFaceOutput>, thr: i64, n: int) -> Seq<int>
    decreases n,
{
    if n <= 0 {
        Seq::empty()
    } else {
        let prev = nms_kept(dets, thr, n - 1);
        if exists|t: int|
            0 <= t < prev.len() && spec_boxes_overlap(
                dets[prev[t]].bbox,
                dets[n - 1].bbox,
                thr,
            ) {
            prev
        } else {
            prev.push(n - 1)
        }
    }
}

/// The optional second post-filter stage: suppress detections whose box
/// overlaps an earlier surviving detection's box by at least `thr`
/// intersection over union. Survivors keep their order.
pub fn suppress_overlaps(mut dets: Vec<RecognizedFaceOutput>, thr: i64) -> (r: Vec<
    RecognizedFaceOutput,
>)
    requires
        forall|k: int| 0 <= k < dets@.len() ==> (#[trigger] dets@[k]).bbox.spec_valid(),
        0 <= thr <= crate::fixedpoint::FIXED_SCALE,
    ensures
        r@.len() == nms_kept(dets@, thr, dets@.len() as int).len(),
        forall|t: int|
            0 <= t < r@.len() ==> #[trigger] r@[t] == dets@[nms_kept(
                dets@,
                thr,
                dets@.len() as int,
            )[t]],
{
    let ghost orig = dets@;
    let mut out: Vec<RecognizedFaceOutput> = Vec::new();
    let ghost mut oi: int = 0;
    while dets.len() > 0
        invariant
            0 <= oi <= orig.len(),
            dets@ == orig.skip(oi),
            forall|k: int| 0 <= k < orig.len() ==> (#[trigger] orig[k]).bbox.spec_valid(),
            0 <= thr <= crate::fixedpoint::FIXED_SCALE,
            out@.len() == nms_kept(orig, thr, oi).len(),
            forall|t: int|
                0 <= t < out@.len() ==> #[trigger] out@[t] == orig[nms_kept(orig, thr, oi)[t]],
            forall|t: int|
                0 <= t < nms_kept(orig, thr, oi).len() ==> 0 <= #[trigger] nms_kept(
                    orig,
                    thr,
                    oi,
                )[t] < oi,
        decreases orig.len() - oi,
    {
        proof {
            assert(dets@[0] == orig[oi]);
        }
        let d = dets.remove(0);
        let ghost kept = nms_kept(orig, thr, oi);
        let mut hit = false;
        let mut t: usize = 0;
        let olen = out.len();
        while t < olen
            invariant_except_break
                t <= olen,
                !hit,
                olen == out@.len(),
                olen == kept.len(),
                0 <= oi < orig.len(),
                d == orig[oi],
                kept == nms_kept(orig, thr, oi),
                forall|k: int| 0 <= k < orig.len() ==> (#[trigger] orig[k]).bbox.spec_valid(),
                0 <= thr <= crate::fixedpoint::FIXED_SCALE,
                forall|u: int| 0 <= u < out@.len() ==> #[trigger] out@[u] == orig[kept[u]],
                forall|u: int| 0 <= u < kept.len() ==> 0 <= #[trigger] kept[u] < oi,
                forall|u: int|
                    0 <= u < t ==> !spec_boxes_overlap(
                        orig[#[trigger] kept[u]].bbox,
                        orig[oi].bbox,
                        thr,
                    ),
            ensures
                !hit ==> forall|u: int|
                    0 <= u < kept.len() ==> !spec_boxes_overlap(
                        orig[#[trigger] kept[u]].bbox,
                        orig[oi].bbox,
                        thr,
                    ),
                hit ==> exists|u: int|
                    0 <= u < kept.len() && spec_boxes_overlap(
                        orig[#[trigger] kept[u]].bbox,
                        orig[oi].bbox,
                        thr,
                    ),
            decreases olen - t,
        {
            if boxes_overlap(&out[t].bbox, &d.bbox, thr) {
                hit = true;
                break ;
            }
            t = t + 1;
        }
        proof {
            oi = oi + 1;
            assert(dets@ =~= orig.skip(oi));
        }
        if !hit {
            out.push(d);
            proof {
                assert(nms_kept(orig, thr, oi) =~= kept.push(oi - 1));
            }
        } else {
            proof {
                assert(nms_kept(orig, thr, oi) =~= kept);
            }
        }
    }
    proof {
        assert(oi == orig.len());
    }
    out
}

/// Resolving one frozen embedding twice against an unchanged corpus
/// gives the same answer both times: resolution is a function of the
/// corpus, the embedding and the policy, and of nothing else.
pub proof fn lemma_resolution_idempotent(
    faces: Seq<Face>,
    e: Seq<i64>,
    policy: MatchPolicy,
    r1: Option<i32>,
    r2: Option<i32>,
)
    requires
        r1 == spec_resolution(faces, e, policy),
        r2 == spec_resolution(faces, e, policy),
    ensures
        r1 == r2,
{
}

/// Against an empty corpus nothing can match: the first face always
/// founds a new person cluster.
pub proof fn lemma_empty_corpus_founds(e: Seq<i64>, policy: MatchPolicy)
    ensures
        creates_person(Seq::empty(), e, policy),
{
}

pub(crate) fn clone_opt_string(s: &Option<String>) -> (r: Option<String>)
    ensures
        match (r, s) {
            (Some(a), Some(b)) => a@ == b@,
            (None, None) => true,
            _ => false,
        },
{
    match s {
        Some(x) => Some(x.clone()),
        None => None,
    }
}

} // verus!
