//! Free-text photo search: photos are ranked ascending by the distance
//! of their stored embedding to the query embedding.
//!
//! The ranking is total and deterministic: photos at equal distance are
//! ordered by insertion, earliest first. Photos without an embedding do
//! not take part in ranked search.

use vstd::prelude::*;
use crate::gallery::{clone_opt_string, emb_wf, listed_photo, Gallery};
use crate::models::{ListPhoto, Photo};
use crate::resolver::{metric_distance, spec_metric_distance, Metric};

verus! {

/// The embedding a photo carries.
pub open spec fn photo_emb(p: Photo) -> Seq<i64> {
    match p.embedding {
        Some(e) => e@,
        None => Seq::empty(),
    }
}

/// Distance of photo `i` to the query.
pub open spec fn photo_dist(photos: Seq<Photo>, q: Seq<i64>, m: Metric, i: int) -> int {
    spec_metric_distance(m, photo_emb(photos[i]), q)
}

/// Photo `i` ranks strictly before photo `j`: it is closer to the
/// query, or equally close and inserted earlier.
pub open spec fn rank_lt(photos: Seq<Photo>, q: Seq<i64>, m: Metric, i: int, j: int) -> bool {
    photo_dist(photos, q, m, i) < photo_dist(photos, q, m, j) || (photo_dist(photos, q, m, i)
        == photo_dist(photos, q, m, j) && i < j)
}

/// Index `i` placed into an already-ranked index list.
pub open spec fn spec_rank_insert(
    photos: Seq<Photo>,
    q: Seq<i64>,
    m: Metric,
    s: Seq<int>,
    i: int,
) -> Seq<int>
    decreases s.len(),
{
    if s.len() == 0 {
        seq![i]
    } else if rank_lt(photos, q, m, i, s[0]) {
        seq![i] + s
    } else {
        seq![s[0]] + spec_rank_insert(photos, q, m, s.drop_first(), i)
    }
}

/// The ranked indices of the first `n` photos that carry an embedding.
pub open spec fn spec_rank(photos: Seq<Photo>, q: Seq<i64>, m: Metric, n: int) -> Seq<int>
    decreases n,
{
    if n <= 0 {
        Seq::empty()
    } else {
        let prev = spec_rank(photos, q, m, n - 1);
        if photos[n - 1].embedding is Some {
            spec_rank_insert(photos, q, m, prev, n - 1)
        } else {
            prev
        }
    }
}

/// Inserting at the first position whose entry ranks after `i` is what
/// `spec_rank_insert` does.
proof fn lemma_rank_insert_at(
    photos: Seq<Photo>,
    q: Seq<i64>,
    m: Metric,
    s: Seq<int>,
    i: int,
    p: int,
)
    requires
        0 <= p <= s.len(),
        forall|k: int| 0 <= k < p ==> !rank_lt(photos, q, m, i, #[trigger] s[k]),
        p < s.len() ==> rank_lt(photos, q, m, i, s[p]),
    ensures
        spec_rank_insert(photos, q, m, s, i) =~= s.take(p) + seq![i] + s.skip(p),
    decreases s.len(),
{
    if s.len() == 0 {
    } else if rank_lt(photos, q, m, i, s[0]) {
        assert(p == 0);
    } else {
        assert(p >= 1);
        assert(forall|k: int|
            0 <= k < p - 1 ==> !rank_lt(photos, q, m, i, #[trigger] s.drop_first()[k]));
        lemma_rank_insert_at(photos, q, m, s.drop_first(), i, p - 1);
    }
}

/// Inserting a fresh largest index keeps the list ranked and adds
/// exactly that index.
proof fn lemma_rank_insert_props(photos: Seq<Photo>, q: Seq<i64>, m: Metric, s: Seq<int>, i: int)
    requires
        0 <= i,
        forall|a: int, b: int|
            0 <= a < b < s.len() ==> rank_lt(photos, q, m, #[trigger] s[a], #[trigger] s[b]),
        forall|k: int| 0 <= k < s.len() ==> 0 <= #[trigger] s[k] < i,
    ensures
        spec_rank_insert(photos, q, m, s, i).len() == s.len() + 1,
        forall|a: int, b: int|
            0 <= a < b < spec_rank_insert(photos, q, m, s, i).len() ==> rank_lt(
                photos,
                q,
                m,
                #[trigger] spec_rank_insert(photos, q, m, s, i)[a],
                #[trigger] spec_rank_insert(photos, q, m, s, i)[b],
            ),
        forall|k: int|
            0 <= k < spec_rank_insert(photos, q, m, s, i).len() ==> 0 <= #[trigger] spec_rank_insert(
                photos,
                q,
                m,
                s,
                i,
            )[k] <= i,
        forall|x: int|
            #[trigger] spec_rank_insert(photos, q, m, s, i).contains(x) <==> (s.contains(x) || x
                == i),
    decreases s.len(),
{
    let r = spec_rank_insert(photos, q, m, s, i);
    if s.len() == 0 {
        assert forall|x: int| #[trigger] r.contains(x) <==> (s.contains(x) || x == i) by {
            if x == i {
                assert(r[0] == i);
            }
        }
        assert(r[0] == i);
    } else if rank_lt(photos, q, m, i, s[0]) {
        assert forall|k: int| 0 <= k < r.len() implies 0 <= #[trigger] r[k] <= i by {
            if k == 0 {
                assert(r[0] == i);
            } else {
                assert(r[k] == s[k - 1]);
            }
        }
        assert forall|a: int, b: int| 0 <= a < b < r.len() implies rank_lt(
            photos,
            q,
            m,
            #[trigger] r[a],
            #[trigger] r[b],
        ) by {
            if a == 0 {
                // i ranks before s[0], which ranks no later than s[b - 1]
                assert(r[b] == s[b - 1]);
            }
        }
        assert forall|x: int| #[trigger] r.contains(x) <==> (s.contains(x) || x == i) by {
            if x == i {
                assert(r[0] == i);
            }
            if s.contains(x) {
                let w = choose|w: int| 0 <= w < s.len() && s[w] == x;
                assert(r[w + 1] == x);
            }
            if r.contains(x) && x != i {
                let w = choose|w: int| 0 <= w < r.len() && r[w] == x;
                assert(w >= 1);
                assert(s[w - 1] == x);
            }
        }
    } else {
        let s1 = s.drop_first();
        assert(forall|a: int, b: int|
            0 <= a < b < s1.len() ==> rank_lt(photos, q, m, #[trigger] s1[a], #[trigger] s1[b]));
        assert(forall|k: int| 0 <= k < s1.len() ==> 0 <= #[trigger] s1[k] < i);
        lemma_rank_insert_props(photos, q, m, s1, i);
        let r1 = spec_rank_insert(photos, q, m, s1, i);
        assert forall|k: int| 0 <= k < r.len() implies 0 <= #[trigger] r[k] <= i by {
            if k == 0 {
                assert(r[0] == s[0]);
            } else {
                assert(r[k] == r1[k - 1]);
            }
        }
        assert forall|a: int, b: int| 0 <= a < b < r.len() implies rank_lt(
            photos,
            q,
            m,
            #[trigger] r[a],
            #[trigger] r[b],
        ) by {
            if a == 0 {
                assert(r[0] == s[0]);
                assert(r[b] == r1[b - 1]);
                assert(r1.contains(r1[b - 1]));
                if r1[b - 1] == i {
                    // s[0] does not rank before nothing: i ranks after s[0]
                    assert(!rank_lt(photos, q, m, i, s[0]));
                    assert(photo_dist(photos, q, m, s[0]) <= photo_dist(photos, q, m, i));
                    assert(s[0] < i);
                } else {
                    assert(s1.contains(r1[b - 1]));
                    let w = choose|w: int| 0 <= w < s1.len() && s1[w] == r1[b - 1];
                    assert(s[w + 1] == r1[b - 1]);
                    if w + 1 > 0 {
                        assert(rank_lt(photos, q, m, s[0], s[w + 1]));
                    }
                }
            } else {
                assert(r[a] == r1[a - 1] && r[b] == r1[b - 1]);
            }
        }
        assert forall|x: int| #[trigger] r.contains(x) <==> (s.contains(x) || x == i) by {
            if r.contains(x) {
                let w = choose|w: int| 0 <= w < r.len() && r[w] == x;
                if w == 0 {
                    assert(s[0] == x);
                } else {
                    assert(r1[w - 1] == x);
                    assert(r1.contains(x));
                    if x != i {
                        let v = choose|v: int| 0 <= v < s1.len() && s1[v] == x;
                        assert(s[v + 1] == x);
                    }
                }
            }
            if s.contains(x) {
                let w = choose|w: int| 0 <= w < s.len() && s[w] == x;
                if w == 0 {
                    assert(r[0] == x);
                } else {
                    assert(s1[w - 1] == x);
                    assert(s1.contains(x));
                    assert(r1.contains(x));
                    let v = choose|v: int| 0 <= v < r1.len() && r1[v] == x;
                    assert(r[v + 1] == x);
                }
            }
            if x == i {
                assert(r1.contains(i));
                let v = choose|v: int| 0 <= v < r1.len() && r1[v] == i;
                assert(r[v + 1] == x);
            }
        }
    }
}

/// What the ranking delivers: every photo with an embedding, exactly
/// once, in ascending distance order with insertion order as the
/// deterministic tie-break.
pub proof fn lemma_rank_props(photos: Seq<Photo>, q: Seq<i64>, m: Metric, n: int)
    requires
        0 <= n <= photos.len(),
    ensures
        forall|a: int, b: int|
            0 <= a < b < spec_rank(photos, q, m, n).len() ==> rank_lt(
                photos,
                q,
                m,
                #[trigger] spec_rank(photos, q, m, n)[a],
                #[trigger] spec_rank(photos, q, m, n)[b],
            ),
        forall|k: int|
            0 <= k < spec_rank(photos, q, m, n).len() ==> 0 <= #[trigger] spec_rank(
                photos,
                q,
                m,
                n,
            )[k] < n && photos[spec_rank(photos, q, m, n)[k]].embedding is Some,
        forall|i: int|
            0 <= i < n && photos[i].embedding is Some ==> #[trigger] spec_rank(
                photos,
                q,
                m,
                n,
            ).contains(i),
    decreases n,
{
    if n > 0 {
        lemma_rank_props(photos, q, m, n - 1);
        let prev = spec_rank(photos, q, m, n - 1);
        let r = spec_rank(photos, q, m, n);
        if photos[n - 1].embedding is Some {
            assert(forall|k: int| 0 <= k < prev.len() ==> 0 <= #[trigger] prev[k] < n - 1);
            lemma_rank_insert_props(photos, q, m, prev, n - 1);
            assert forall|k: int| 0 <= k < r.len() implies 0 <= #[trigger] r[k] < n
                && photos[r[k]].embedding is Some by {
                assert(r.contains(r[k]));
                if r[k] != n - 1 {
                    assert(prev.contains(r[k]));
                    let w = choose|w: int| 0 <= w < prev.len() && prev[w] == r[k];
                }
            }
            assert forall|i: int| 0 <= i < n && photos[i].embedding is Some implies #[trigger] r
                .contains(i) by {
                if i < n - 1 {
                    assert(prev.contains(i));
                }
            }
        }
    }
}

fn rank_before(dv: &Vec<i64>, a: usize, b: usize) -> (r: bool)
    requires
        a < dv@.len(),
        b < dv@.len(),
    ensures
        r == (dv@[a as int] < dv@[b as int] || (dv@[a as int] == dv@[b as int] && a < b)),
{
    dv[a] < dv[b] || (dv[a] == dv[b] && a < b)
}

impl Gallery {
    /// List photos, optionally limited, optionally ranked against a
    /// query embedding.
    ///
    /// Without a query the photos come in insertion order. With one,
    /// the photos that carry an embedding come ascending by distance to
    /// the query under the gallery's metric; photos at equal distance
    /// keep their insertion order.
    pub fn get_photos_by_filters(&self, query: Option<&Vec<i64>>, qty: Option<usize>) -> (r: Vec<
        ListPhoto,
    >)
        requires
            self.wf(),
            match query {
                Some(q) => emb_wf(q@, self.dim as int),
                None => true,
            },
        ensures
            match query {
                None => {
                    let cap = match qty {
                        Some(c) => c as int,
                        None => self.photos@.len() as int,
                    };
                    let len = if cap < self.photos@.len() as int {
                        cap
                    } else {
                        self.photos@.len() as int
                    };
                    &&& r@.len() == len
                    &&& forall|k: int|
                        0 <= k < len ==> listed_photo(self.photos@[k], #[trigger] r@[k])
                },
                Some(q) => {
                    let rank = spec_rank(
                        self.photos@,
                        q@,
                        self.policy.metric,
                        self.photos@.len() as int,
                    );
                    let cap = match qty {
                        Some(c) => c as int,
                        None => rank.len() as int,
                    };
                    let len = if cap < rank.len() as int {
                        cap
                    } else {
                        rank.len() as int
                    };
                    &&& r@.len() == len
                    &&& forall|k: int|
                        0 <= k < len ==> listed_photo(self.photos@[rank[k]], #[trigger] r@[k])
                },
            },
    {
        let n = self.photos.len();
        match query {
            None => {
                let cap = match qty {
                    Some(c) => c,
                    None => n,
                };
                let len = if cap < n {
                    cap
                } else {
                    n
                };
                let mut out: Vec<ListPhoto> = Vec::new();
                let mut k: usize = 0;
                while k < len
                    invariant
                        k <= len,
                        len <= n,
                        n == self.photos@.len(),
                        out@.len() == k,
                        forall|j: int|
                            0 <= j < k ==> listed_photo(self.photos@[j], #[trigger] out@[j]),
                    decreases len - k,
                {
                    out.push(self.list_entry(k));
                    k = k + 1;
                }
                out
            },
            Some(q) => {
                // distances of the photos that carry an embedding
                let mut dv: Vec<i64> = Vec::new();
                let mut i: usize = 0;
                while i < n
                    invariant
                        i <= n,
                        n == self.photos@.len(),
                        self.wf(),
                        emb_wf(q@, self.dim as int),
                        dv@.len() == i,
                        forall|j: int|
                            0 <= j < i && self.photos@[j].embedding is Some ==> #[trigger] dv@[j]
                                == photo_dist(self.photos@, q@, self.policy.metric, j),
                    decreases n - i,
                {
                    let d: i64 = match &self.photos[i].embedding {
                        Some(e) => metric_distance(&self.policy.metric, e, q),
                        None => 0,
                    };
                    dv.push(d);
                    i = i + 1;
                }
                // stable insertion ranking
                let mut order: Vec<usize> = Vec::new();
                let mut i2: usize = 0;
                while i2 < n
                    invariant
                        i2 <= n,
                        n == self.photos@.len(),
                        self.wf(),
                        emb_wf(q@, self.dim as int),
                        dv@.len() == n,
                        forall|j: int|
                            0 <= j < n && self.photos@[j].embedding is Some ==> #[trigger] dv@[j]
                                == photo_dist(self.photos@, q@, self.policy.metric, j),
                        order@.len() == spec_rank(
                            self.photos@,
                            q@,
                            self.policy.metric,
                            i2 as int,
                        ).len(),
                        forall|k: int|
                            0 <= k < order@.len() ==> #[trigger] order@[k] as int == spec_rank(
                                self.photos@,
                                q@,
                                self.policy.metric,
                                i2 as int,
                            )[k],
                        forall|k: int|
                            0 <= k < order@.len() ==> #[trigger] order@[k] < i2 && self.photos@[
                                order@[k] as int
                            ].embedding is Some,
                    decreases n - i2,
                {
                    let ghost m = self.policy.metric;
                    let ghost prev = spec_rank(self.photos@, q@, m, i2 as int);
                    if self.photos[i2].embedding.is_some() {
                        let mut p: usize = 0;
                        let olen = order.len();
                        while p < olen
                            invariant_except_break
                                p <= olen,
                                olen == order@.len(),
                                n == self.photos@.len(),
                                dv@.len() == n,
                                i2 < n,
                                self.photos@[i2 as int].embedding is Some,
                                forall|j: int|
                                    0 <= j < n && self.photos@[j].embedding is Some
                                        ==> #[trigger] dv@[j] == photo_dist(self.photos@, q@, m, j),
                                forall|k: int|
                                    0 <= k < order@.len() ==> #[trigger] order@[k] < i2
                                        && self.photos@[order@[k] as int].embedding is Some,
                                forall|k: int|
                                    0 <= k < p ==> !rank_lt(
                                        self.photos@,
                                        q@,
                                        m,
                                        i2 as int,
                                        #[trigger] order@[k] as int,
                                    ),
                            ensures
                                p <= olen,
                                olen == order@.len(),
                                forall|k: int|
                                    0 <= k < p ==> !rank_lt(
                                        self.photos@,
                                        q@,
                                        m,
                                        i2 as int,
                                        #[trigger] order@[k] as int,
                                    ),
                                p < olen ==> rank_lt(
                                    self.photos@,
                                    q@,
                                    m,
                                    i2 as int,
                                    order@[p as int] as int,
                                ),
                            decreases olen - p,
                        {
                            if rank_before(&dv, i2, order[p]) {
                                break ;
                            }
                            p = p + 1;
                        }
                        let ghost order0 = order@;
                        order.insert(p, i2);
                        proof {
                            let ghost prev_iview = Seq::new(
                                order0.len() as nat,
                                |k: int| order0[k] as int,
                            );
                            assert(prev_iview =~= prev);
                            lemma_rank_insert_at(self.photos@, q@, m, prev, i2 as int, p as int);
                            let cur = spec_rank(self.photos@, q@, m, i2 as int + 1);
                            assert(cur =~= prev.take(p as int) + seq![i2 as int] + prev.skip(
                                p as int,
                            ));
                            assert forall|k: int| 0 <= k < order@.len() implies #[trigger] order@[k] as int
                                == cur[k] by {
                                if k < p as int {
                                    assert(order@[k] == order0[k]);
                                } else if k == p as int {
                                } else {
                                    assert(order@[k] == order0[k - 1]);
                                }
                            }
                        }
                    }
                    i2 = i2 + 1;
                }
                // emit in rank order, up to the cap
                let olen = order.len();
                let cap = match qty {
                    Some(c) => c,
                    None => olen,
                };
                let len = if cap < olen {
                    cap
                } else {
                    olen
                };
                proof {
                    lemma_rank_props(self.photos@, q@, self.policy.metric, n as int);
                }
                let mut out: Vec<ListPhoto> = Vec::new();
                let mut k: usize = 0;
                while k < len
                    invariant
                        k <= len,
                        len <= olen,
                        olen == order@.len(),
                        n == self.photos@.len(),
                        forall|j: int|
                            0 <= j < order@.len() ==> #[trigger] order@[j] as int == spec_rank(
                                self.photos@,
                                q@,
                                self.policy.metric,
                                n as int,
                            )[j] && order@[j] < n,
                        out@.len() == k,
                        forall|j: int|
                            0 <= j < k ==> listed_photo(
                                self.photos@[spec_rank(
                                    self.photos@,
                                    q@,
                                    self.policy.metric,
                                    n as int,
                                )[j]],
                                #[trigger] out@[j],
                            ),
                    decreases len - k,
                {
                    let idx = order[k];
                    out.push(self.list_entry(idx));
                    k = k + 1;
                }
                out
            },
        }
    }

    /// The listing row of the photo at `idx`.
    fn list_entry(&self, idx: usize) -> (r: ListPhoto)
        requires
            idx < self.photos@.len(),
        ensures
            listed_photo(self.photos@[idx as int], r),
    {
        let p = &self.photos[idx];
        ListPhoto {
            id: p.id,
            path: clone_opt_string(&p.path),
            title: clone_opt_string(&p.title),
            user_id: p.user_id,
            album_id: p.album_id,
        }
    }
}

} // verus!
