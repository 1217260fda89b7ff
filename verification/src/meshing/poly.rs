//! The corners of a brush, face by face.

use crate::error::GeometryError;
use crate::meshing::{Mesh, MeshView, Plane, Vert};
use crate::scalar::{is_positive, is_zero, less, lt, positive, zero, COLOCATED, MINUS_ONE};
use vstd::prelude::*;

verus! {

/// Where three planes of a brush meet, as the caller measured it.
#[derive(Debug, Clone, PartialEq, Eq)]
pub struct Corner {
    /// The three faces whose planes meet here.
    pub faces: [usize; 3],
    /// Determinant of the three normals. Zero: the planes share no single point.
    pub determinant: u32,
    /// The point.
    pub position: [u32; 3],
    /// Signed distance of the point from the plane of each face of the brush,
    /// positive on the outer side.
    pub distances: Vec<u32>,
    /// Texture coordinates of the point on each of the three faces.
    pub uvs: [[u32; 2]; 3],
}

impl Corner {
    /// The corner fits a brush of `faces` faces.
    pub open spec fn wf(&self, faces: int) -> bool {
        &&& self.distances@.len() == faces
        &&& forall|s: int| 0 <= s < 3 ==> (#[trigger] self.faces[s]) < faces
    }

    /// The planes do meet in one point, and the point is outside no plane.
    /// A point on a plane is not outside it.
    pub open spec fn retained(&self) -> bool {
        &&& !is_zero(self.determinant)
        &&& forall|p: int|
            0 <= p < self.distances@.len() ==> !is_positive(#[trigger] self.distances@[p])
    }

    /// Tells whether the corner is a corner of the brush.
    pub fn is_retained(&self) -> (r: bool)
        ensures
            r == self.retained(),
    {
        if zero(self.determinant) {
            return false;
        }
        let mut p: usize = 0;
        while p < self.distances.len()
            invariant
                p <= self.distances@.len(),
                forall|q: int| 0 <= q < p ==> !is_positive(#[trigger] self.distances@[q]),
            decreases self.distances@.len() - p,
        {
            if positive(self.distances[p]) {
                return false;
            }
            p += 1;
        }
        true
    }
}

/// What was measured of one brush.
#[derive(Debug, Clone, PartialEq, Eq)]
pub struct Survey {
    /// The plane of each face.
    pub planes: Vec<Plane>,
    /// The texture of each face.
    pub textures: Vec<String>,
    /// The candidate corners, in the order in which they are offered to the faces.
    pub corners: Vec<Corner>,
    /// Distance between any two candidate corners, by their indices.
    pub separations: Vec<Vec<u32>>,
}

/// An event of the walk over a survey: corner `corner` is offered to the
/// face in its slot `slot`.
pub struct Offer {
    pub corner: int,
    pub slot: int,
}

impl Survey {
    /// The tables fit one another: a texture for each plane, a distance
    /// from each plane for each corner, whose faces are faces of the brush,
    /// and a separation for each two corners.
    pub open spec fn wf(&self) -> bool {
        &&& self.textures@.len() == self.planes@.len()
        &&& self.separations@.len() == self.corners@.len()
        &&& forall|c: int|
            0 <= c < self.corners@.len() ==> (#[trigger] self.corners@[c]).wf(
                self.planes@.len() as int,
            )
        &&& forall|c: int|
            0 <= c < self.corners@.len() ==> (#[trigger] self.separations@[c])@.len()
                == self.corners@.len()
    }

    /// Corner `c` is within the tolerance of a corner that the face holds already.
    pub open spec fn crowded(&self, held: Seq<Offer>, c: int) -> bool {
        exists|i: int|
            0 <= i < held.len() && less(
                self.separations@[c]@[(#[trigger] held[i]).corner],
                COLOCATED,
            )
    }

    /// Face `f` is offered the corner `c` in its slot `s`: it takes a corner
    /// of the brush that is its own, unless it holds that point already.
    pub open spec fn offered(&self, f: int, held: Seq<Offer>, c: int, s: int) -> Seq<Offer> {
        if self.corners@[c].faces[s] == f && self.corners@[c].retained() && !self.crowded(held, c) {
            held.push(Offer { corner: c, slot: s })
        } else {
            held
        }
    }

    /// What face `f` holds once the first `upto` corners have been offered,
    /// each in its three slots in turn.
    pub open spec fn held(&self, f: int, upto: int) -> Seq<Offer>
        decreases upto,
    {
        if upto <= 0 {
            Seq::empty()
        } else {
            let c = upto - 1;
            self.offered(
                f,
                self.offered(f, self.offered(f, self.held(f, c), c, 0), c, 1),
                c,
                2,
            )
        }
    }

    /// The vertex that face `f` makes of an offer it took.
    pub open spec fn vert(&self, f: int, o: Offer) -> Vert {
        Vert {
            position: self.corners@[o.corner].position,
            normal: self.planes@[f].normal,
            uv: self.corners@[o.corner].uvs[o.slot],
        }
    }

    /// The vertices of face `f`, in the order in which it took them.
    pub open spec fn face_verts(&self, f: int) -> Seq<Vert> {
        let held = self.held(f, self.corners@.len() as int);
        Seq::new(held.len(), |i: int| self.vert(f, held[i]))
    }
}

/// The vertices gathered for one face, in no particular order yet.
#[derive(Debug, Clone, PartialEq, Eq)]
pub struct Poly {
    /// The outward normal of the face.
    pub normal: [u32; 3],
    pub verts: Vec<Vert>,
    /// The texture of the face.
    pub texture: String,
}

/// Some of the distances is under the tolerance.
pub open spec fn any_colocated(separations: Seq<u32>) -> bool {
    exists|i: int| 0 <= i < separations.len() && less(#[trigger] separations[i], COLOCATED)
}

impl Poly {
    /// Adds a vertex at `position` with the texture coordinates `uv`, unless
    /// the face has a vertex at that point already. `separations` holds the
    /// distance of `position` from each vertex of the face, in their order.
    /// Returns whether the vertex was added.
    pub fn add_vert(&mut self, position: [u32; 3], uv: [u32; 2], separations: &Vec<u32>) -> (added:
        bool)
        requires
            separations@.len() == old(self).verts@.len(),
        ensures
            added == !any_colocated(separations@),
            final(self).normal == old(self).normal,
            final(self).texture == old(self).texture,
            added ==> final(self).verts@ == old(self).verts@.push(
                Vert { position, normal: old(self).normal, uv },
            ),
            !added ==> final(self).verts@ == old(self).verts@,
    {
        let mut i: usize = 0;
        while i < separations.len()
            invariant
                i <= separations@.len(),
                forall|j: int| 0 <= j < i ==> !less(#[trigger] separations@[j], COLOCATED),
            decreases separations@.len() - i,
        {
            if lt(separations[i], COLOCATED) {
                return false;
            }
            i += 1;
        }
        self.verts.push(Vert { position, normal: self.normal, uv });
        true
    }
}

impl Survey {
    /// An offer that face `f` may hold after the first `upto` corners: the
    /// corner is one of those, its planes meet in one point that is outside
    /// no plane of the brush, and `f` is the face in the slot.
    pub open spec fn sound(&self, f: int, upto: int, o: Offer) -> bool {
        &&& 0 <= o.corner < upto
        &&& 0 <= o.slot < 3
        &&& self.corners@[o.corner].faces[o.slot] == f
        &&& self.corners@[o.corner].retained()
    }

    /// What a face holds is sound, and no vertex of it is within the
    /// tolerance of one that the face took before it.
    pub open spec fn clean(&self, f: int, upto: int, held: Seq<Offer>) -> bool {
        &&& forall|i: int| 0 <= i < held.len() ==> self.sound(f, upto, #[trigger] held[i])
        &&& forall|i: int, j: int|
            0 <= i < j < held.len() ==> !less(
                self.separations@[(#[trigger] held[j]).corner]@[(#[trigger] held[i]).corner],
                COLOCATED,
            )
    }

    proof fn offered_is_clean(&self, f: int, held: Seq<Offer>, c: int, s: int)
        requires
            0 <= s < 3,
            0 <= c,
            self.clean(f, c + 1, held),
        ensures
            self.clean(f, c + 1, self.offered(f, held, c, s)),
    {
        let next = self.offered(f, held, c, s);
        if next != held {
            assert forall|i: int, j: int| 0 <= i < j < next.len() implies !less(
                self.separations@[(#[trigger] next[j]).corner]@[(#[trigger] next[i]).corner],
                COLOCATED,
            ) by {
                if j == held.len() {
                    assert(next[i] == held[i]);
                } else {
                    assert(next[i] == held[i] && next[j] == held[j]);
                }
            }
        }
    }

    /// Every vertex that a face holds comes from a candidate corner whose
    /// planes meet in one point, which lies outside no plane of the brush,
    /// and of whose three faces the face is one. No two vertices of a face
    /// were measured to be within the tolerance of each other.
    pub proof fn held_is_clean(&self, f: int, upto: int)
        requires
            0 <= upto,
        ensures
            self.clean(f, upto, self.held(f, upto)),
        decreases upto,
    {
        if upto > 0 {
            let c = upto - 1;
            self.held_is_clean(f, c);
            let h0 = self.held(f, c);
            assert(self.clean(f, c + 1, h0));
            self.offered_is_clean(f, h0, c, 0);
            let h1 = self.offered(f, h0, c, 0);
            self.offered_is_clean(f, h1, c, 1);
            let h2 = self.offered(f, h1, c, 1);
            self.offered_is_clean(f, h2, c, 2);
        }
    }

    /// Corner `c` is a corner of the brush and of face `f`, in its slot `s`.
    pub open spec fn due(&self, f: int, c: int, s: int) -> bool {
        &&& 0 <= s < 3
        &&& self.corners@[c].faces[s] == f
        &&& self.corners@[c].retained()
    }

    /// The face holds corner `c`, or holds a corner within the tolerance of it.
    pub open spec fn covered(&self, held: Seq<Offer>, c: int) -> bool {
        exists|i: int|
            0 <= i < held.len() && ((#[trigger] held[i]).corner == c || less(
                self.separations@[c]@[held[i].corner],
                COLOCATED,
            ))
    }

    proof fn offered_keeps_covered(&self, f: int, held: Seq<Offer>, c: int, s: int, d: int)
        requires
            self.covered(held, d),
        ensures
            self.covered(self.offered(f, held, c, s), d),
    {
        let next = self.offered(f, held, c, s);
        let i = choose|i: int|
            0 <= i < held.len() && ((#[trigger] held[i]).corner == d || less(
                self.separations@[d]@[held[i].corner],
                COLOCATED,
            ));
        assert(next[i] == held[i]);
    }

    proof fn offered_covers(&self, f: int, held: Seq<Offer>, c: int, s: int)
        requires
            self.due(f, c, s),
        ensures
            self.covered(self.offered(f, held, c, s), c),
    {
        let next = self.offered(f, held, c, s);
        if self.crowded(held, c) {
            let i = choose|i: int|
                0 <= i < held.len() && less(
                    self.separations@[c]@[(#[trigger] held[i]).corner],
                    COLOCATED,
                );
            assert(next[i] == held[i]);
        } else {
            assert(next[held.len() as int].corner == c);
        }
    }

    /// No corner of the brush is lost to a face of its own: the face holds
    /// it, or a corner that was measured to be within the tolerance of it.
    pub proof fn held_is_complete(&self, f: int, upto: int, c: int, s: int)
        requires
            0 <= c < upto,
            self.due(f, c, s),
        ensures
            self.covered(self.held(f, upto), c),
        decreases upto,
    {
        let last = upto - 1;
        let h0 = self.held(f, last);
        let h1 = self.offered(f, h0, last, 0);
        let h2 = self.offered(f, h1, last, 1);
        if c < last {
            self.held_is_complete(f, last, c, s);
            self.offered_keeps_covered(f, h0, last, 0, c);
            self.offered_keeps_covered(f, h1, last, 1, c);
            self.offered_keeps_covered(f, h2, last, 2, c);
        } else {
            if s == 0 {
                self.offered_covers(f, h0, c, 0);
                self.offered_keeps_covered(f, h1, last, 1, c);
                self.offered_keeps_covered(f, h2, last, 2, c);
            } else if s == 1 {
                self.offered_covers(f, h1, c, 1);
                self.offered_keeps_covered(f, h2, last, 2, c);
            } else {
                self.offered_covers(f, h2, c, 2);
            }
        }
    }

    /// The vertex is made of a candidate corner whose planes meet in one
    /// point, which was measured to lie outside no plane of the brush, and
    /// of whose three faces `f` is one.
    pub open spec fn of_a_corner(&self, f: int, v: Vert) -> bool {
        exists|c: int, s: int|
            0 <= c < self.corners@.len() && #[trigger] self.due(f, c, s) && v == self.vert(
                f,
                Offer { corner: c, slot: s },
            )
    }

    /// Every vertex of a face is made of a corner of the brush that is a
    /// corner of that face.
    pub proof fn face_verts_are_corners(&self, f: int)
        ensures
            forall|i: int|
                0 <= i < self.face_verts(f).len() ==> self.of_a_corner(
                    f,
                    #[trigger] self.face_verts(f)[i],
                ),
    {
        let n = self.corners@.len() as int;
        let held = self.held(f, n);
        self.held_is_clean(f, n);
        assert forall|i: int| 0 <= i < self.face_verts(f).len() implies self.of_a_corner(
            f,
            #[trigger] self.face_verts(f)[i],
        ) by {
            let o = held[i];
            assert(self.sound(f, n, o));
            assert(self.due(f, o.corner, o.slot));
        }
    }

    /// Which of the candidate corners are corners of the brush.
    fn kept(&self) -> (kept: Vec<bool>)
        ensures
            kept@.len() == self.corners@.len(),
            forall|c: int|
                0 <= c < self.corners@.len() ==> #[trigger] kept@[c] == self.corners@[c].retained(),
    {
        let mut kept: Vec<bool> = Vec::new();
        let mut c: usize = 0;
        while c < self.corners.len()
            invariant
                c <= self.corners@.len(),
                kept@.len() == c,
                forall|d: int| 0 <= d < c ==> #[trigger] kept@[d] == self.corners@[d].retained(),
            decreases self.corners@.len() - c,
        {
            kept.push(self.corners[c].is_retained());
            c += 1;
        }
        kept
    }

    /// Offers corner `c`, a corner of the brush, to `poly` in its slot `s`.
    fn offer(
        &self,
        f: usize,
        c: usize,
        s: usize,
        poly: &mut Poly,
        origins: &mut Vec<usize>,
        Ghost(held): Ghost<Seq<Offer>>,
    )
        requires
            self.wf(),
            f < self.planes@.len(),
            c < self.corners@.len(),
            s < 3,
            self.corners@[c as int].retained(),
            old(poly).normal == self.planes@[f as int].normal,
            old(origins)@.len() == held.len(),
            old(poly).verts@.len() == held.len(),
            forall|i: int|
                0 <= i < held.len() ==> (#[trigger] old(origins)@[i]) == held[i].corner
                    && held[i].corner < self.corners@.len(),
            forall|i: int|
                0 <= i < held.len() ==> (#[trigger] old(poly).verts@[i]) == self.vert(
                    f as int,
                    held[i],
                ),
        ensures
            final(poly).normal == old(poly).normal,
            final(poly).texture == old(poly).texture,
            final(origins)@.len() == self.offered(f as int, held, c as int, s as int).len(),
            final(poly).verts@.len() == final(origins)@.len(),
            forall|i: int|
                0 <= i < final(origins)@.len() ==> (#[trigger] final(origins)@[i]) == self.offered(
                    f as int,
                    held,
                    c as int,
                    s as int,
                )[i].corner && final(origins)@[i] < self.corners@.len(),
            forall|i: int|
                0 <= i < final(origins)@.len() ==> (#[trigger] final(poly).verts@[i]) == self.vert(
                    f as int,
                    self.offered(f as int, held, c as int, s as int)[i],
                ),
    {
        let corner = &self.corners[c];
        if corner.faces[s] != f {
            return ;
        }
        let row = &self.separations[c];
        let mut near: Vec<u32> = Vec::new();
        let mut i: usize = 0;
        while i < origins.len()
            invariant
                i <= origins@.len(),
                near@.len() == i,
                origins@.len() == held.len(),
                row@.len() == self.corners@.len(),
                forall|j: int|
                    0 <= j < held.len() ==> (#[trigger] origins@[j]) == held[j].corner
                        && held[j].corner < self.corners@.len(),
                forall|j: int| 0 <= j < i ==> #[trigger] near@[j] == row@[held[j].corner],
            decreases origins@.len() - i,
        {
            near.push(row[origins[i]]);
            i += 1;
        }
        proof {
            if any_colocated(near@) {
                let w = choose|i: int| 0 <= i < near@.len() && less(#[trigger] near@[i], COLOCATED);
                assert(less(self.separations@[c as int]@[held[w].corner], COLOCATED));
            }
            if self.crowded(held, c as int) {
                let w = choose|i: int|
                    0 <= i < held.len() && less(
                        self.separations@[c as int]@[(#[trigger] held[i]).corner],
                        COLOCATED,
                    );
                assert(less(near@[w], COLOCATED));
            }
            assert(any_colocated(near@) == self.crowded(held, c as int));
        }
        if poly.add_vert(corner.position, corner.uvs[s], &near) {
            origins.push(c);
        }
    }

    /// The vertices of face `f`.
    fn face_poly(&self, f: usize, kept: &Vec<bool>) -> (poly: Poly)
        requires
            self.wf(),
            f < self.planes@.len(),
            kept@.len() == self.corners@.len(),
            forall|c: int|
                0 <= c < self.corners@.len() ==> #[trigger] kept@[c] == self.corners@[c].retained(),
        ensures
            poly.normal == self.planes@[f as int].normal,
            poly.texture == self.textures@[f as int],
            poly.verts@ == self.face_verts(f as int),
    {
        let mut poly = Poly {
            normal: self.planes[f].normal,
            verts: Vec::new(),
            texture: self.textures[f].clone(),
        };
        let mut origins: Vec<usize> = Vec::new();
        let ghost mut held: Seq<Offer> = Seq::empty();
        let mut c: usize = 0;
        while c < self.corners.len()
            invariant
                self.wf(),
                f < self.planes@.len(),
                c <= self.corners@.len(),
                kept@.len() == self.corners@.len(),
                forall|d: int|
                    0 <= d < self.corners@.len() ==> #[trigger] kept@[d]
                        == self.corners@[d].retained(),
                held == self.held(f as int, c as int),
                poly.normal == self.planes@[f as int].normal,
                poly.texture == self.textures@[f as int],
                origins@.len() == held.len(),
                poly.verts@.len() == held.len(),
                forall|i: int|
                    0 <= i < held.len() ==> (#[trigger] origins@[i]) == held[i].corner
                        && held[i].corner < self.corners@.len(),
                forall|i: int|
                    0 <= i < held.len() ==> (#[trigger] poly.verts@[i]) == self.vert(
                        f as int,
                        held[i],
                    ),
            decreases self.corners@.len() - c,
        {
            if kept[c] {
                self.offer(f, c, 0, &mut poly, &mut origins, Ghost(held));
                proof {
                    held = self.offered(f as int, held, c as int, 0);
                }
                self.offer(f, c, 1, &mut poly, &mut origins, Ghost(held));
                proof {
                    held = self.offered(f as int, held, c as int, 1);
                }
                self.offer(f, c, 2, &mut poly, &mut origins, Ghost(held));
                proof {
                    held = self.offered(f as int, held, c as int, 2);
                }
            }
            c += 1;
        }
        assert(poly.verts@ =~= self.face_verts(f as int));
        poly
    }

    /// Gathers the vertices of each face of the brush: one polygon per face,
    /// in the order of the faces.
    ///
    /// The candidate corners are gone through in their order. One whose
    /// planes share no single point, or which lies outside some plane of the
    /// brush, is passed over. Each of the others is offered to its three
    /// faces in turn, and a face takes it unless it has a vertex within the
    /// tolerance of it already.
    pub fn to_polys(&self) -> (polys: Vec<Poly>)
        requires
            self.wf(),
        ensures
            polys@.len() == self.planes@.len(),
            forall|f: int|
                0 <= f < polys@.len() ==> {
                    &&& (#[trigger] polys@[f]).normal == self.planes@[f].normal
                    &&& polys@[f].texture == self.textures@[f]
                    &&& polys@[f].verts@ == self.face_verts(f)
                },
    {
        let kept = self.kept();
        let mut polys: Vec<Poly> = Vec::new();
        let mut f: usize = 0;
        while f < self.planes.len()
            invariant
                self.wf(),
                f <= self.planes@.len(),
                kept@.len() == self.corners@.len(),
                forall|c: int|
                    0 <= c < self.corners@.len() ==> #[trigger] kept@[c]
                        == self.corners@[c].retained(),
                polys@.len() == f,
                forall|g: int|
                    0 <= g < f ==> {
                        &&& (#[trigger] polys@[g]).normal == self.planes@[g].normal
                        &&& polys@[g].texture == self.textures@[g]
                        &&& polys@[g].verts@ == self.face_verts(g)
                    },
            decreases self.planes@.len() - f,
        {
            let poly = self.face_poly(f, &kept);
            polys.push(poly);
            f += 1;
        }
        polys
    }
}

/// How the vertices of one face lie round its centre, as the caller
/// measured it. With `d(v)` the unit vector from the centre of the face to
/// its vertex `v`, and `n` the outward normal of the face:
#[derive(Debug, Clone, PartialEq, Eq)]
pub struct Directions {
    /// `forward[u][v]` is `(n x d(u)) . d(v)`: positive where `v` lies in the
    /// half of the plane into which the walk round the face leaves `u`.
    pub forward: Vec<Vec<u32>>,
    /// `closeness[u][v]` is `d(u) . d(v)`: the cosine of the angle between
    /// the two, larger the nearer they are.
    pub closeness: Vec<Vec<u32>>,
}

/// `order` with the items at `a` and `b` exchanged.
pub open spec fn exchanged(order: Seq<usize>, a: int, b: int) -> Seq<usize> {
    order.update(a, order[b]).update(b, order[a])
}

/// `order` holds each of the numbers below `k` once.
pub open spec fn is_permutation(order: Seq<usize>, k: int) -> bool {
    &&& order.len() == k
    &&& forall|i: int| 0 <= i < k ==> (#[trigger] order[i]) < k
    &&& forall|i: int, j: int| 0 <= i < j < k ==> (#[trigger] order[i]) != (#[trigger] order[j])
}

/// To exchange two items of a permutation leaves a permutation.
pub proof fn exchanged_is_permutation(order: Seq<usize>, k: int, a: int, b: int)
    requires
        is_permutation(order, k),
        0 <= a < k,
        0 <= b < k,
    ensures
        is_permutation(exchanged(order, a, b), k),
{
    let next = exchanged(order, a, b);
    assert forall|i: int, j: int| 0 <= i < j < k implies (#[trigger] next[i]) != (
    #[trigger] next[j]) by {
        let si = if i == a {
            b
        } else if i == b {
            a
        } else {
            i
        };
        let sj = if j == a {
            b
        } else if j == b {
            a
        } else {
            j
        };
        assert(next[i] == order[si] && next[j] == order[sj]);
        if si < sj {
            assert(order[si] != order[sj]);
        } else {
            assert(order[sj] != order[si]);
        }
    }
}

impl Directions {
    /// The tables are square, of side `k`.
    pub open spec fn wf(&self, k: int) -> bool {
        &&& self.forward@.len() == k
        &&& self.closeness@.len() == k
        &&& forall|u: int| 0 <= u < k ==> (#[trigger] self.forward@[u])@.len() == k
        &&& forall|u: int| 0 <= u < k ==> (#[trigger] self.closeness@[u])@.len() == k
    }

    /// Vertex `to` may follow vertex `from`: it lies in the forward half,
    /// and not straight across the centre.
    pub open spec fn eligible(&self, from: int, to: int) -> bool {
        &&& is_positive(self.forward@[from]@[to])
        &&& less(MINUS_ONE, self.closeness@[from]@[to])
    }

    /// Of the places after `n` and before `upto`, the one whose vertex
    /// follows the vertex at `n`: the first of those that are eligible and
    /// have no eligible one closer. `None` where none is eligible.
    pub open spec fn nearest(&self, order: Seq<usize>, n: int, upto: int) -> Option<int>
        decreases upto - n,
    {
        if upto <= n + 1 {
            None
        } else {
            let m = upto - 1;
            let before = self.nearest(order, n, m);
            let from = order[n] as int;
            if self.eligible(from, order[m] as int) && (before is None || less(
                self.closeness@[from]@[order[before.unwrap()] as int],
                self.closeness@[from]@[order[m] as int],
            )) {
                Some(m)
            } else {
                before
            }
        }
    }

    /// The order of `k` vertices after the first `steps` places have been
    /// settled. At first each vertex stands where it was gathered. Step `n`
    /// brings to place `n + 1` the vertex that follows the one at place `n`,
    /// in exchange for the one that stood there; where none follows, the
    /// order stays.
    pub open spec fn arranged(&self, k: int, steps: int) -> Seq<usize>
        decreases steps,
    {
        if steps <= 0 {
            Seq::new(k as nat, |i: int| i as usize)
        } else {
            let n = steps - 1;
            let order = self.arranged(k, n);
            match self.nearest(order, n, k) {
                Some(m) => exchanged(order, n + 1, m),
                None => order,
            }
        }
    }

    /// The order in which `k` vertices go round their face.
    pub open spec fn order(&self, k: int) -> Seq<usize> {
        self.arranged(k, k - 1)
    }

    /// What `nearest` finds is the first eligible place with no eligible
    /// place closer; it finds none only where no place is eligible.
    pub proof fn nearest_is_first_closest(&self, order: Seq<usize>, n: int, upto: int)
        ensures
            match self.nearest(order, n, upto) {
                Some(m) => {
                    &&& n < m < upto
                    &&& self.eligible(order[n] as int, order[m] as int)
                    &&& forall|j: int|
                        n < j < upto && self.eligible(order[n] as int, #[trigger] order[j] as int)
                            ==> !less(
                            self.closeness@[order[n] as int]@[order[m] as int],
                            self.closeness@[order[n] as int]@[order[j] as int],
                        )
                    &&& forall|j: int|
                        n < j < m && self.eligible(order[n] as int, #[trigger] order[j] as int)
                            ==> less(
                            self.closeness@[order[n] as int]@[order[j] as int],
                            self.closeness@[order[n] as int]@[order[m] as int],
                        )
                },
                None => forall|j: int|
                    n < j < upto ==> !self.eligible(order[n] as int, #[trigger] order[j] as int),
            },
        decreases upto - n,
    {
        if upto > n + 1 {
            self.nearest_is_first_closest(order, n, upto - 1);
        }
    }

    /// Every step leaves a permutation, and the first vertex in its place.
    pub proof fn arranged_is_permutation(&self, k: int, steps: int)
        requires
            0 <= steps < k <= usize::MAX,
        ensures
            is_permutation(self.arranged(k, steps), k),
            self.arranged(k, steps)[0] == 0,
        decreases steps,
    {
        if steps > 0 {
            let n = steps - 1;
            self.arranged_is_permutation(k, n);
            let order = self.arranged(k, n);
            self.nearest_is_first_closest(order, n, k);
            match self.nearest(order, n, k) {
                Some(m) => {
                    exchanged_is_permutation(order, k, n + 1, m);
                },
                None => {},
            }
        }
    }

    /// The place after `n` whose vertex follows the one at `n`.
    fn nearest_after(&self, order: &Vec<usize>, n: usize) -> (r: Option<usize>)
        requires
            self.wf(order@.len() as int),
            is_permutation(order@, order@.len() as int),
            n < order@.len(),
        ensures
            match r {
                Some(m) => self.nearest(order@, n as int, order@.len() as int) == Some(m as int),
                None => self.nearest(order@, n as int, order@.len() as int) is None,
            },
    {
        let k = order.len();
        let from = order[n];
        let row = &self.closeness[from];
        let mut best: Option<usize> = None;
        let mut m: usize = n + 1;
        while m < k
            invariant
                k == order@.len(),
                self.wf(k as int),
                is_permutation(order@, k as int),
                n < m <= k,
                from == order@[n as int],
                row == self.closeness@[from as int],
                match best {
                    Some(b) => b < m && self.nearest(order@, n as int, m as int) == Some(b as int),
                    None => self.nearest(order@, n as int, m as int) is None,
                },
            decreases k - m,
        {
            let to = order[m];
            if positive(self.forward[from][to]) && lt(MINUS_ONE, row[to]) {
                let closer = match best {
                    Some(b) => lt(row[order[b]], row[to]),
                    None => true,
                };
                if closer {
                    best = Some(m);
                }
            }
            m += 1;
        }
        best
    }

    /// Computes the order in which the `k` vertices go round their face.
    pub fn arrange(&self, k: usize) -> (order: Vec<usize>)
        requires
            self.wf(k as int),
        ensures
            order@ == self.order(k as int),
            is_permutation(order@, k as int),
    {
        let mut order: Vec<usize> = Vec::new();
        let mut i: usize = 0;
        while i < k
            invariant
                i <= k,
                order@.len() == i,
                forall|j: int| 0 <= j < i ==> #[trigger] order@[j] == j,
            decreases k - i,
        {
            order.push(i);
            i += 1;
        }
        assert(order@ =~= self.arranged(k as int, 0));
        if k == 0 {
            return order;
        }
        let mut n: usize = 0;
        while n < k - 1
            invariant
                0 < k,
                n <= k - 1,
                self.wf(k as int),
                order@ == self.arranged(k as int, n as int),
                is_permutation(order@, k as int),
            decreases k - n,
        {
            proof {
                self.arranged_is_permutation(k as int, n + 1);
            }
            match self.nearest_after(&order, n) {
                Some(m) => {
                    proof {
                        self.nearest_is_first_closest(order@, n as int, k as int);
                    }
                    let a = order[n + 1];
                    let b = order[m];
                    order.set(n + 1, b);
                    order.set(m, a);
                },
                None => {},
            }
            n += 1;
        }
        order
    }
}

impl Poly {
    /// The vertices in the order in which they go round the face, for the
    /// measurements `directions` of them.
    pub open spec fn ordered(&self, directions: &Directions) -> Seq<Vert> {
        let order = directions.order(self.verts@.len() as int);
        Seq::new(self.verts@.len(), |i: int| self.verts@[order[i] as int])
    }

    /// Puts the vertices in the order in which they go round the face. The
    /// first vertex stays first; each next one is, of those not yet placed
    /// that lie forward of the one before, the one nearest to it. Fails
    /// where the face has fewer than three vertices.
    pub fn ordered_verts(&self, directions: &Directions) -> (r: Result<Vec<Vert>, GeometryError>)
        requires
            directions.wf(self.verts@.len() as int),
        ensures
            self.verts@.len() < 3 <==> r is Err,
            r is Err ==> r == Err::<Vec<Vert>, GeometryError>(GeometryError::InsufficientVertices),
            r is Ok ==> r.unwrap()@ == self.ordered(directions),
    {
        let k = self.verts.len();
        if k < 3 {
            return Err(GeometryError::InsufficientVertices);
        }
        let order = directions.arrange(k);
        let mut ordered: Vec<Vert> = Vec::new();
        let mut i: usize = 0;
        while i < k
            invariant
                k == self.verts@.len(),
                i <= k,
                is_permutation(order@, k as int),
                ordered@.len() == i,
                forall|j: int| 0 <= j < i ==> #[trigger] ordered@[j] == self.verts@[order@[j] as int],
            decreases k - i,
        {
            ordered.push(self.verts[order[i]]);
            i += 1;
        }
        assert(ordered@ =~= self.ordered(directions));
        Ok(ordered)
    }

    /// Makes the mesh of the face: its vertices in the order in which they
    /// go round it, and the triangles that fan out from the first of them.
    /// Fails where the face has fewer than three vertices.
    pub fn triangulate(&self, directions: &Directions) -> (r: Result<Mesh, GeometryError>)
        requires
            directions.wf(self.verts@.len() as int),
            self.verts@.len() <= u32::MAX,
        ensures
            self.verts@.len() < 3 <==> r is Err,
            r is Err ==> r == Err::<Mesh, GeometryError>(GeometryError::InsufficientVertices),
            r is Ok ==> r.unwrap()@ == MeshView::fan(self.ordered(directions)),
            r is Ok ==> r.unwrap()@.wf(),
    {
        let verts = match self.ordered_verts(directions) {
            Ok(verts) => verts,
            Err(e) => {
                return Err(e);
            },
        };
        let k = verts.len();
        let mut mesh = Mesh {
            positions: Vec::new(),
            normals: Vec::new(),
            uvs: Vec::new(),
            indices: Vec::new(),
        };
        let mut i: usize = 0;
        while i < k
            invariant
                k == verts@.len(),
                i <= k,
                mesh.positions@.len() == i,
                mesh.normals@.len() == i,
                mesh.uvs@.len() == i,
                mesh.indices@.len() == 0,
                forall|j: int| 0 <= j < i ==> #[trigger] mesh.positions@[j] == verts@[j].position,
                forall|j: int| 0 <= j < i ==> #[trigger] mesh.normals@[j] == verts@[j].normal,
                forall|j: int| 0 <= j < i ==> #[trigger] mesh.uvs@[j] == verts@[j].uv,
            decreases k - i,
        {
            mesh.positions.push(verts[i].position);
            mesh.normals.push(verts[i].normal);
            mesh.uvs.push(verts[i].uv);
            i += 1;
        }
        let mut i: usize = 2;
        while i < k
            invariant
                3 <= k <= u32::MAX,
                k == verts@.len(),
                2 <= i <= k,
                mesh.positions@.len() == k,
                mesh.normals@.len() == k,
                mesh.uvs@.len() == k,
                forall|j: int| 0 <= j < k ==> #[trigger] mesh.positions@[j] == verts@[j].position,
                forall|j: int| 0 <= j < k ==> #[trigger] mesh.normals@[j] == verts@[j].normal,
                forall|j: int| 0 <= j < k ==> #[trigger] mesh.uvs@[j] == verts@[j].uv,
                mesh.indices@.len() == 3 * (i - 2),
                forall|t: int|
                    0 <= t < 3 * (i - 2) ==> #[trigger] mesh.indices@[t] == (if t % 3 == 0 {
                        0
                    } else {
                        t / 3 + t % 3
                    }),
            decreases k - i,
        {
            mesh.indices.push(0);
            mesh.indices.push((i - 1) as u32);
            mesh.indices.push(i as u32);
            i += 1;
        }
        proof {
            let fan = MeshView::fan(verts@);
            assert(mesh@.positions =~= fan.positions);
            assert(mesh@.normals =~= fan.normals);
            assert(mesh@.uvs =~= fan.uvs);
            assert(mesh@.indices =~= fan.indices);
            MeshView::fan_is_wf(verts@);
        }
        Ok(mesh)
    }
}

} // verus!
