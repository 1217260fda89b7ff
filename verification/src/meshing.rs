//! From brushes to triangle meshes.
//!
//! A brush is the intersection of half-spaces, one per face. Its corners are
//! the points where three of the planes meet and which lie outside no plane.
//! The arithmetic that finds and measures such points is done by the caller;
//! what is decided from the measurements is decided here: which corners
//! stay, which face they belong to, in what order a face's corners go round
//! it, and how the triangles are numbered.

pub mod poly;
pub mod utils;

use crate::error::GeometryError;
use crate::meshing::poly::{Directions, Poly};
use crate::scalar::{eq, is_nan, less, lt, nan, same, COLLINEAR};
use vstd::prelude::*;

verus! {

/// A point of a mesh: where it is, which way its face looks, and where it
/// falls on the texture. Every number is a bit pattern (see `scalar`).
#[derive(Debug, Clone, Copy, PartialEq, Eq)]
pub struct Vert {
    pub position: [u32; 3],
    pub normal: [u32; 3],
    pub uv: [u32; 2],
}

/// An oriented plane: a point on it and a normal that points out of the brush.
#[derive(Debug, Clone, Copy, PartialEq, Eq)]
pub struct Plane {
    pub origin: [u32; 3],
    pub normal: [u32; 3],
}

/// The two points are the same point: equal in each coordinate.
pub open spec fn coincide(p: [u32; 3], q: [u32; 3]) -> bool {
    same(p[0], q[0]) && same(p[1], q[1]) && same(p[2], q[2])
}

/// The three points span no plane: two of them coincide, or the sine of the
/// angle between the edges that leave the first point is no number or is
/// under the least that counts.
pub open spec fn degenerate(points: [[u32; 3]; 3], sine: u32) -> bool {
    ||| coincide(points[0], points[1])
    ||| coincide(points[0], points[2])
    ||| coincide(points[1], points[2])
    ||| is_nan(sine)
    ||| less(sine, COLLINEAR)
}

fn coincident(p: &[u32; 3], q: &[u32; 3]) -> (r: bool)
    ensures
        r == coincide(*p, *q),
{
    eq(p[0], q[0]) && eq(p[1], q[1]) && eq(p[2], q[2])
}

impl Plane {
    /// The plane through `origin` that looks along `normal`.
    pub fn new(origin: [u32; 3], normal: [u32; 3]) -> (plane: Self)
        ensures
            plane.origin == origin,
            plane.normal == normal,
    {
        Self { origin, normal }
    }

    /// The plane of a face, through the first of its three points. The
    /// caller has measured the edges from the first point to the second and
    /// to the third, each brought to length one: `normal` is the cross
    /// product of the latter with the former, and `sine` is its length.
    /// Fails where the points span no plane.
    pub fn from_triangle(points: [[u32; 3]; 3], normal: [u32; 3], sine: u32) -> (r: Result<
        Self,
        GeometryError,
    >)
        ensures
            degenerate(points, sine) ==> r == Err::<Plane, GeometryError>(
                GeometryError::DegeneratePlane,
            ),
            !degenerate(points, sine) ==> r == Ok::<Plane, GeometryError>(
                Plane { origin: points[0], normal },
            ),
    {
        if coincident(&points[0], &points[1]) || coincident(&points[0], &points[2]) || coincident(
            &points[1],
            &points[2],
        ) || nan(sine) || lt(sine, COLLINEAR) {
            Err(GeometryError::DegeneratePlane)
        } else {
            Ok(Self::new(points[0], normal))
        }
    }
}

/// A triangle mesh: three arrays of equal length that describe its points,
/// and the corners of its triangles, three by three, as indices into them.
#[derive(Debug, Default, Clone, PartialEq, Eq)]
pub struct Mesh {
    pub positions: Vec<[u32; 3]>,
    pub normals: Vec<[u32; 3]>,
    pub uvs: Vec<[u32; 2]>,
    pub indices: Vec<u32>,
}

/// A mesh as a mathematical value.
pub struct MeshView {
    pub positions: Seq<[u32; 3]>,
    pub normals: Seq<[u32; 3]>,
    pub uvs: Seq<[u32; 2]>,
    pub indices: Seq<int>,
}

impl MeshView {
    /// The three arrays are equally long, the indices come in threes, and
    /// each of them names a point of the mesh.
    pub open spec fn wf(self) -> bool {
        &&& self.normals.len() == self.positions.len()
        &&& self.uvs.len() == self.positions.len()
        &&& self.indices.len() % 3 == 0
        &&& forall|t: int|
            0 <= t < self.indices.len() ==> 0 <= (#[trigger] self.indices[t])
                < self.positions.len()
    }

    /// The mesh without points.
    pub open spec fn empty() -> MeshView {
        MeshView {
            positions: Seq::empty(),
            normals: Seq::empty(),
            uvs: Seq::empty(),
            indices: Seq::empty(),
        }
    }

    /// The points of `self`, then those of `other`; the triangles of `self`,
    /// then those of `other` with each index raised by the number of points
    /// of `self`.
    pub open spec fn joined(self, other: MeshView) -> MeshView {
        MeshView {
            positions: self.positions + other.positions,
            normals: self.normals + other.normals,
            uvs: self.uvs + other.uvs,
            indices: self.indices + Seq::new(
                other.indices.len(),
                |t: int| other.indices[t] + self.positions.len(),
            ),
        }
    }

    /// The meshes joined one after the other, from the first on.
    pub open spec fn merged(meshes: Seq<MeshView>) -> MeshView
        decreases meshes.len(),
    {
        if meshes.len() == 0 {
            MeshView::empty()
        } else {
            MeshView::merged(meshes.drop_last()).joined(meshes.last())
        }
    }

    /// The mesh of one polygon whose vertices go round it in the order
    /// given: the vertices as they come, and for each vertex from the third
    /// on a triangle of the first vertex, the one before it, and itself.
    pub open spec fn fan(verts: Seq<Vert>) -> MeshView {
        MeshView {
            positions: Seq::new(verts.len(), |i: int| verts[i].position),
            normals: Seq::new(verts.len(), |i: int| verts[i].normal),
            uvs: Seq::new(verts.len(), |i: int| verts[i].uv),
            indices: Seq::new(
                if verts.len() < 3 {
                    0nat
                } else {
                    (3 * (verts.len() - 2)) as nat
                },
                |t: int|
                    if t % 3 == 0 {
                        0
                    } else {
                        t / 3 + t % 3
                    },
            ),
        }
    }

    /// A fan is a well-formed mesh.
    pub proof fn fan_is_wf(verts: Seq<Vert>)
        ensures
            MeshView::fan(verts).wf(),
    {
    }

    /// Two well-formed meshes join to a well-formed mesh.
    pub proof fn joined_is_wf(self, other: MeshView)
        requires
            self.wf(),
            other.wf(),
        ensures
            self.joined(other).wf(),
    {
    }

    /// Well-formed meshes merge to a well-formed mesh, which has as many
    /// points as all of them together: at least as many as any part of them
    /// taken from the front.
    pub proof fn merged_is_wf(meshes: Seq<MeshView>)
        requires
            forall|i: int| 0 <= i < meshes.len() ==> (#[trigger] meshes[i]).wf(),
        ensures
            MeshView::merged(meshes).wf(),
            forall|m: int|
                0 <= m <= meshes.len() ==> (#[trigger] MeshView::merged(
                    meshes.take(m),
                )).positions.len() <= MeshView::merged(meshes).positions.len(),
        decreases meshes.len(),
    {
        if meshes.len() > 0 {
            let front = meshes.drop_last();
            MeshView::merged_is_wf(front);
            MeshView::merged(front).joined_is_wf(meshes.last());
            assert forall|m: int| 0 <= m <= meshes.len() implies (#[trigger] MeshView::merged(
                meshes.take(m),
            )).positions.len() <= MeshView::merged(meshes).positions.len() by {
                if m < meshes.len() {
                    assert(meshes.take(m) =~= front.take(m));
                } else {
                    assert(meshes.take(m) =~= meshes);
                }
            }
        } else {
            assert forall|m: int| 0 <= m <= meshes.len() implies (#[trigger] MeshView::merged(
                meshes.take(m),
            )).positions.len() <= MeshView::merged(meshes).positions.len() by {
                assert(meshes.take(m) =~= meshes);
            }
        }
    }

    /// To join is associative.
    pub proof fn joined_is_associative(self, b: MeshView, c: MeshView)
        ensures
            self.joined(b).joined(c) == self.joined(b.joined(c)),
    {
        let l = self.joined(b).joined(c);
        let r = self.joined(b.joined(c));
        assert(l.positions =~= r.positions);
        assert(l.normals =~= r.normals);
        assert(l.uvs =~= r.uvs);
        assert(l.indices =~= r.indices);
    }

    /// The empty mesh joined with a mesh is that mesh.
    pub proof fn empty_joined(self)
        ensures
            MeshView::empty().joined(self) == self,
    {
        let l = MeshView::empty().joined(self);
        assert(l.positions =~= self.positions);
        assert(l.normals =~= self.normals);
        assert(l.uvs =~= self.uvs);
        assert(l.indices =~= self.indices);
    }

    /// To merge one list after another is to merge each and join the two.
    pub proof fn merged_of_concatenation(front: Seq<MeshView>, back: Seq<MeshView>)
        ensures
            MeshView::merged(front + back) == MeshView::merged(front).joined(
                MeshView::merged(back),
            ),
        decreases back.len(),
    {
        if back.len() == 0 {
            assert(front + back =~= front);
            let m = MeshView::merged(front);
            let j = m.joined(MeshView::empty());
            assert(j.positions =~= m.positions);
            assert(j.normals =~= m.normals);
            assert(j.uvs =~= m.uvs);
            assert(j.indices =~= m.indices);
        } else {
            assert((front + back).drop_last() =~= front + back.drop_last());
            MeshView::merged_of_concatenation(front, back.drop_last());
            MeshView::merged(front).joined_is_associative(
                MeshView::merged(back.drop_last()),
                back.last(),
            );
        }
    }

    /// A list of one mesh merges to that mesh.
    pub proof fn merged_of_one(self)
        ensures
            MeshView::merged(seq![self]) == self,
    {
        let one = seq![self];
        assert(one.drop_last() =~= Seq::<MeshView>::empty());
        assert(one.last() == self);
        assert(MeshView::merged(one.drop_last()) == MeshView::empty());
        self.empty_joined();
    }

    /// Merging is associative: to put in place of some meshes of a list
    /// their merged mesh changes nothing in what the list merges to.
    pub proof fn merge_is_associative(
        front: Seq<MeshView>,
        middle: Seq<MeshView>,
        back: Seq<MeshView>,
    )
        ensures
            MeshView::merged(front + seq![MeshView::merged(middle)] + back) == MeshView::merged(
                front + middle + back,
            ),
    {
        let m = MeshView::merged(middle);
        MeshView::merged_of_concatenation(front + seq![m], back);
        MeshView::merged_of_concatenation(front, seq![m]);
        m.merged_of_one();
        MeshView::merged_of_concatenation(front + middle, back);
        MeshView::merged_of_concatenation(front, middle);
    }

    /// `merge([a, merge([b, c])])` is `merge([a, b, c])`.
    pub proof fn merge_nested(a: MeshView, b: MeshView, c: MeshView)
        ensures
            MeshView::merged(seq![a, MeshView::merged(seq![b, c])]) == MeshView::merged(
                seq![a, b, c],
            ),
    {
        MeshView::merge_is_associative(seq![a], seq![b, c], Seq::empty());
        assert(seq![a] + seq![MeshView::merged(seq![b, c])] + Seq::<MeshView>::empty() =~= seq![
            a,
            MeshView::merged(seq![b, c]),
        ]);
        assert(seq![a] + seq![b, c] + Seq::<MeshView>::empty() =~= seq![a, b, c]);
    }
}

impl View for Mesh {
    type V = MeshView;

    open spec fn view(&self) -> MeshView {
        MeshView {
            positions: self.positions@,
            normals: self.normals@,
            uvs: self.uvs@,
            indices: Seq::new(self.indices@.len(), |t: int| self.indices@[t] as int),
        }
    }
}

/// The views of the meshes of a list.
pub open spec fn views(meshes: Seq<Mesh>) -> Seq<MeshView> {
    Seq::new(meshes.len(), |i: int| meshes[i]@)
}

/// What one brush came to: what its mesh or its failure is as a value.
pub open spec fn outcome(brush: Result<Mesh, GeometryError>) -> MeshView {
    match brush {
        Ok(mesh) => mesh@,
        Err(_) => MeshView::empty(),
    }
}

/// The meshes of the brushes of a list.
pub open spec fn outcomes(brushes: Seq<Result<Mesh, GeometryError>>) -> Seq<MeshView> {
    Seq::new(brushes.len(), |i: int| outcome(brushes[i]))
}

/// The fan of each polygon of a list.
pub open spec fn fans(polys: Seq<Poly>, directions: Seq<Directions>) -> Seq<MeshView> {
    Seq::new(polys.len(), |f: int| MeshView::fan(polys[f].ordered(&directions[f])))
}

/// The number of vertices of all polygons of a list.
pub open spec fn total_verts(polys: Seq<Poly>) -> nat
    decreases polys.len(),
{
    if polys.len() == 0 {
        0
    } else {
        total_verts(polys.drop_last()) + polys.last().verts@.len()
    }
}

/// The fans of the first `m` polygons merge to a mesh with as many points
/// as these polygons have vertices, which is no more than all polygons have.
pub proof fn merged_fans_count(polys: Seq<Poly>, directions: Seq<Directions>, m: int)
    requires
        0 <= m <= polys.len(),
    ensures
        MeshView::merged(fans(polys, directions).take(m)).positions.len() == total_verts(
            polys.take(m),
        ),
        total_verts(polys.take(m)) <= total_verts(polys),
    decreases polys.len() - m, m,
{
    if m < polys.len() {
        merged_fans_count(polys, directions, m + 1);
        assert(polys.take(m + 1).drop_last() =~= polys.take(m));
    } else {
        assert(polys.take(m) =~= polys);
    }
    if m > 0 {
        merged_fans_count_front(polys, directions, m);
    } else {
        assert(fans(polys, directions).take(0) =~= Seq::<MeshView>::empty());
        assert(polys.take(0) =~= Seq::<Poly>::empty());
    }
}

proof fn merged_fans_count_front(polys: Seq<Poly>, directions: Seq<Directions>, m: int)
    requires
        0 <= m <= polys.len(),
    ensures
        MeshView::merged(fans(polys, directions).take(m)).positions.len() == total_verts(
            polys.take(m),
        ),
    decreases m,
{
    let all = fans(polys, directions);
    if m > 0 {
        merged_fans_count_front(polys, directions, m - 1);
        assert(all.take(m).drop_last() =~= all.take(m - 1));
        assert(polys.take(m).drop_last() =~= polys.take(m - 1));
        assert(all.take(m).last() == all[m - 1]);
        assert(polys.take(m).last() == polys[m - 1]);
    } else {
        assert(all.take(0) =~= Seq::<MeshView>::empty());
        assert(polys.take(0) =~= Seq::<Poly>::empty());
    }
}

impl Mesh {
    /// The mesh without points.
    pub fn empty() -> (mesh: Self)
        ensures
            mesh@ == MeshView::empty(),
            mesh@.wf(),
    {
        let mesh = Mesh {
            positions: Vec::new(),
            normals: Vec::new(),
            uvs: Vec::new(),
            indices: Vec::new(),
        };
        assert(mesh@.indices =~= Seq::<int>::empty());
        mesh
    }

    /// Joins `other` to the end of the mesh.
    fn join(&mut self, other: &Mesh)
        requires
            old(self)@.wf(),
            other@.wf(),
            old(self)@.positions.len() + other@.positions.len() <= u32::MAX,
        ensures
            final(self)@ == old(self)@.joined(other@),
            final(self)@.wf(),
    {
        let offset = self.positions.len() as u32;
        let points = other.positions.len();
        let mut p: usize = 0;
        while p < points
            invariant
                other@.wf(),
                points == other@.positions.len(),
                p <= points,
                self.positions@ == old(self).positions@ + other.positions@.take(p as int),
                self.normals@ == old(self).normals@ + other.normals@.take(p as int),
                self.uvs@ == old(self).uvs@ + other.uvs@.take(p as int),
                self.indices@ == old(self).indices@,
            decreases points - p,
        {
            self.positions.push(other.positions[p]);
            self.normals.push(other.normals[p]);
            self.uvs.push(other.uvs[p]);
            assert(other.positions@.take(p + 1) =~= other.positions@.take(p as int).push(
                other.positions@[p as int],
            ));
            assert(other.normals@.take(p + 1) =~= other.normals@.take(p as int).push(
                other.normals@[p as int],
            ));
            assert(other.uvs@.take(p + 1) =~= other.uvs@.take(p as int).push(
                other.uvs@[p as int],
            ));
            p += 1;
        }
        assert(other.positions@.take(points as int) =~= other.positions@);
        assert(other.normals@.take(points as int) =~= other.normals@);
        assert(other.uvs@.take(points as int) =~= other.uvs@);
        let corners = other.indices.len();
        let mut t: usize = 0;
        while t < corners
            invariant
                other@.wf(),
                corners == other.indices@.len(),
                t <= corners,
                offset == old(self)@.positions.len(),
                offset + other@.positions.len() <= u32::MAX,
                self.positions@ == old(self).positions@ + other.positions@,
                self.normals@ == old(self).normals@ + other.normals@,
                self.uvs@ == old(self).uvs@ + other.uvs@,
                self.indices@.len() == old(self).indices@.len() + t,
                forall|u: int|
                    0 <= u < old(self).indices@.len() ==> #[trigger] self.indices@[u] == old(
                        self,
                    ).indices@[u],
                forall|u: int|
                    0 <= u < t ==> #[trigger] self.indices@[old(self).indices@.len() + u]
                        == other.indices@[u] + offset,
            decreases corners - t,
        {
            assert(0 <= other@.indices[t as int] < other@.positions.len());
            self.indices.push(other.indices[t] + offset);
            t += 1;
        }
        proof {
            let joined = old(self)@.joined(other@).indices;
            let before = old(self).indices@.len() as int;
            assert(self@.indices.len() == joined.len());
            assert forall|u: int| 0 <= u < joined.len() implies self@.indices[u] == joined[u] by {
                if u < before {
                    assert(self.indices@[u] == old(self).indices@[u]);
                } else {
                    assert(self.indices@[before + (u - before)] == other.indices@[u - before]
                        + offset);
                }
            }
            assert(self@.indices =~= joined);
            old(self)@.joined_is_wf(other@);
        }
    }

    /// Merges meshes into one: their points one after the other, and their
    /// triangles likewise, each index raised by the number of points that
    /// came before its mesh.
    pub fn merge(meshes: Vec<Mesh>) -> (mesh: Self)
        requires
            forall|i: int| 0 <= i < meshes@.len() ==> (#[trigger] meshes@[i])@.wf(),
            MeshView::merged(views(meshes@)).positions.len() <= u32::MAX,
        ensures
            mesh@ == MeshView::merged(views(meshes@)),
            mesh@.wf(),
    {
        let mut mesh = Mesh::empty();
        let ghost all = views(meshes@);
        let mut m: usize = 0;
        proof {
            MeshView::merged_is_wf(all);
            assert(all.take(0) =~= Seq::<MeshView>::empty());
        }
        while m < meshes.len()
            invariant
                m <= meshes@.len(),
                all == views(meshes@),
                forall|i: int| 0 <= i < meshes@.len() ==> (#[trigger] meshes@[i])@.wf(),
                forall|n: int|
                    0 <= n <= all.len() ==> (#[trigger] MeshView::merged(
                        all.take(n),
                    )).positions.len() <= u32::MAX,
                mesh@ == MeshView::merged(all.take(m as int)),
                mesh@.wf(),
            decreases meshes@.len() - m,
        {
            proof {
                assert(all.take(m + 1).drop_last() =~= all.take(m as int));
                assert(all.take(m + 1).last() == meshes@[m as int]@);
                assert(MeshView::merged(all.take(m + 1)).positions.len() <= u32::MAX);
            }
            mesh.join(&meshes[m]);
            m += 1;
        }
        assert(all.take(meshes@.len() as int) =~= all);
        mesh
    }

    /// The mesh of a brush from the polygons of its faces: each polygon's
    /// vertices put in order round its face and cut into a fan, and the fans
    /// merged in the order of the faces. `directions` holds for each polygon
    /// what was measured of it. Fails where some face has fewer than three
    /// vertices.
    pub fn from_brush(polys: &Vec<Poly>, directions: &Vec<Directions>) -> (r: Result<
        Self,
        GeometryError,
    >)
        requires
            directions@.len() == polys@.len(),
            forall|f: int|
                0 <= f < polys@.len() ==> (#[trigger] directions@[f]).wf(
                    polys@[f].verts@.len() as int,
                ),
            total_verts(polys@) <= u32::MAX,
        ensures
            (exists|f: int| 0 <= f < polys@.len() && (#[trigger] polys@[f]).verts@.len() < 3)
                <==> r is Err,
            r is Err ==> r == Err::<Mesh, GeometryError>(GeometryError::InsufficientVertices),
            r is Ok ==> r.unwrap()@ == MeshView::merged(fans(polys@, directions@)),
            r is Ok ==> r.unwrap()@.wf(),
    {
        let mut mesh = Mesh::empty();
        let ghost all = fans(polys@, directions@);
        let mut f: usize = 0;
        assert(all.take(0) =~= Seq::<MeshView>::empty());
        while f < polys.len()
            invariant
                f <= polys@.len(),
                directions@.len() == polys@.len(),
                forall|g: int|
                    0 <= g < polys@.len() ==> (#[trigger] directions@[g]).wf(
                        polys@[g].verts@.len() as int,
                    ),
                total_verts(polys@) <= u32::MAX,
                all == fans(polys@, directions@),
                forall|g: int| 0 <= g < f ==> (#[trigger] polys@[g]).verts@.len() >= 3,
                mesh@ == MeshView::merged(all.take(f as int)),
                mesh@.wf(),
            decreases polys@.len() - f,
        {
            proof {
                merged_fans_count(polys@, directions@, f as int);
                merged_fans_count(polys@, directions@, f + 1);
                assert(all.take(f + 1).drop_last() =~= all.take(f as int));
                assert(all.take(f + 1).last() == all[f as int]);
                assert(polys@.take(f + 1).drop_last() =~= polys@.take(f as int));
                assert(polys@.take(f + 1).last() == polys@[f as int]);
            }
            match polys[f].triangulate(&directions[f]) {
                Ok(fan) => {
                    mesh.join(&fan);
                },
                Err(e) => {
                    return Err(e);
                },
            }
            f += 1;
        }
        assert(all.take(polys@.len() as int) =~= all);
        Ok(mesh)
    }

    /// The mesh of an entity from what its brushes came to, in their order:
    /// the meshes of the brushes merged. Fails where the entity has no
    /// brush, and where a brush failed, with the failure of the first that did.
    pub fn from_entity(brushes: Vec<Result<Mesh, GeometryError>>) -> (r: Result<
        Self,
        GeometryError,
    >)
        requires
            forall|b: int| 0 <= b < brushes@.len() ==> outcome(#[trigger] brushes@[b]).wf(),
            MeshView::merged(outcomes(brushes@)).positions.len() <= u32::MAX,
        ensures
            brushes@.len() == 0 ==> r == Err::<Mesh, GeometryError>(GeometryError::NoGeometry),
            forall|b: int|
                0 <= b < brushes@.len() && (#[trigger] brushes@[b]) is Err && (forall|a: int|
                    0 <= a < b ==> (#[trigger] brushes@[a]) is Ok) ==> r == Err::<
                    Mesh,
                    GeometryError,
                >(brushes@[b]->Err_0),
            brushes@.len() > 0 && (forall|b: int|
                0 <= b < brushes@.len() ==> (#[trigger] brushes@[b]) is Ok) ==> r is Ok
                && r.unwrap()@ == MeshView::merged(outcomes(brushes@)) && r.unwrap()@.wf(),
    {
        if brushes.len() == 0 {
            return Err(GeometryError::NoGeometry);
        }
        let mut mesh = Mesh::empty();
        let ghost all = outcomes(brushes@);
        let mut b: usize = 0;
        proof {
            MeshView::merged_is_wf(all);
            assert(all.take(0) =~= Seq::<MeshView>::empty());
        }
        while b < brushes.len()
            invariant
                b <= brushes@.len(),
                all == outcomes(brushes@),
                forall|a: int| 0 <= a < brushes@.len() ==> outcome(#[trigger] brushes@[a]).wf(),
                forall|n: int|
                    0 <= n <= all.len() ==> (#[trigger] MeshView::merged(
                        all.take(n),
                    )).positions.len() <= u32::MAX,
                forall|a: int| 0 <= a < b ==> (#[trigger] brushes@[a]) is Ok,
                mesh@ == MeshView::merged(all.take(b as int)),
                mesh@.wf(),
            decreases brushes@.len() - b,
        {
            proof {
                assert(all.take(b + 1).drop_last() =~= all.take(b as int));
                assert(all.take(b + 1).last() == outcome(brushes@[b as int]));
                assert(MeshView::merged(all.take(b + 1)).positions.len() <= u32::MAX);
            }
            match &brushes[b] {
                Ok(part) => {
                    mesh.join(part);
                },
                Err(e) => {
                    return Err(*e);
                },
            }
            b += 1;
        }
        assert(all.take(brushes@.len() as int) =~= all);
        Ok(mesh)
    }
}

} // verus!
