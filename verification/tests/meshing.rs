use glam::{Mat3, Vec2, Vec3};
use valve_map::meshing::utils::ArrayExt;
use valve_map::scalar;
use valve_map::{Corner, Directions, GeometryError, Mesh, Plane, Poly, Survey, Vert};

fn bits3(v: [f32; 3]) -> [u32; 3] {
    [v[0].to_bits(), v[1].to_bits(), v[2].to_bits()]
}

fn bits2(v: [f32; 2]) -> [u32; 2] {
    [v[0].to_bits(), v[1].to_bits()]
}

fn floats3(v: [u32; 3]) -> [f32; 3] {
    [
        f32::from_bits(v[0]),
        f32::from_bits(v[1]),
        f32::from_bits(v[2]),
    ]
}

fn floats2(v: [u32; 2]) -> [f32; 2] {
    [f32::from_bits(v[0]), f32::from_bits(v[1])]
}

fn mesh(positions: &[[f32; 3]], normals: &[[f32; 3]], uvs: &[[f32; 2]], indices: &[u32]) -> Mesh {
    Mesh {
        positions: positions.iter().map(|p| bits3(*p)).collect(),
        normals: normals.iter().map(|p| bits3(*p)).collect(),
        uvs: uvs.iter().map(|p| bits2(*p)).collect(),
        indices: indices.to_vec(),
    }
}

/// A face as the geometry needs it.
struct Side {
    triangle: [[f32; 3]; 3],
    texture: &'static str,
    axis_u: [f32; 3],
    axis_v: [f32; 3],
    offset: [f32; 2],
    scale: [f32; 2],
}

fn side(triangle: [[f32; 3]; 3]) -> Side {
    Side {
        triangle,
        texture: "stone",
        axis_u: [1.0, 0.0, 0.0],
        axis_v: [0.0, 1.0, 0.0],
        offset: [0.0, 0.0],
        scale: [1.0, 1.0],
    }
}

fn plane_of(side: &Side) -> Result<Plane, GeometryError> {
    let first = Vec3::from_array(side.triangle[0]);
    let second = Vec3::from_array(side.triangle[1]);
    let third = Vec3::from_array(side.triangle[2]);
    let to_second = (second - first).normalize();
    let to_third = (third - first).normalize();
    let normal = to_third.cross(to_second);
    Plane::from_triangle(
        [
            bits3(side.triangle[0]),
            bits3(side.triangle[1]),
            bits3(side.triangle[2]),
        ],
        bits3(normal.to_array()),
        normal.length().to_bits(),
    )
}

fn origin(plane: &Plane) -> Vec3 {
    Vec3::from_array(floats3(plane.origin))
}

fn normal(plane: &Plane) -> Vec3 {
    Vec3::from_array(floats3(plane.normal))
}

fn meeting(planes: [&Plane; 3]) -> (f32, Vec3) {
    let (x1, n1) = (origin(planes[0]), normal(planes[0]));
    let (x2, n2) = (origin(planes[1]), normal(planes[1]));
    let (x3, n3) = (origin(planes[2]), normal(planes[2]));
    let det = Mat3::from_cols(n1, n2, n3).determinant();
    let v1 = x1.dot(n1) * n2.cross(n3);
    let v2 = x2.dot(n2) * n3.cross(n1);
    let v3 = x3.dot(n3) * n1.cross(n2);
    (det, det.powf(-1.0) * (v1 + v2 + v3))
}

fn texture_at(position: Vec3, side: &Side) -> Vec2 {
    let scale = Vec2::from_array(side.scale);
    let axis_u = Vec3::from_array(side.axis_u) / scale.x;
    let axis_v = Vec3::from_array(side.axis_v) / scale.y;
    (Vec2::new(position.dot(axis_u), position.dot(axis_v)) + Vec2::from_array(side.offset)) / 64.0
}

fn survey(sides: &[Side]) -> Result<Survey, GeometryError> {
    let mut planes = Vec::new();
    for side in sides {
        planes.push(plane_of(side)?);
    }
    let mut corners = Vec::new();
    let mut points = Vec::new();
    for faces in valve_map::triples(sides.len()) {
        let (det, point) = meeting([&planes[faces[0]], &planes[faces[1]], &planes[faces[2]]]);
        corners.push(Corner {
            faces,
            determinant: det.to_bits(),
            position: bits3(point.to_array()),
            distances: planes
                .iter()
                .map(|p| normal(p).dot(point - origin(p)).to_bits())
                .collect(),
            uvs: [
                bits2(texture_at(point, &sides[faces[0]]).to_array()),
                bits2(texture_at(point, &sides[faces[1]]).to_array()),
                bits2(texture_at(point, &sides[faces[2]]).to_array()),
            ],
        });
        points.push(point);
    }
    let separations = points
        .iter()
        .map(|a| points.iter().map(|b| (*a - *b).length().to_bits()).collect())
        .collect();
    Ok(Survey {
        planes,
        textures: sides.iter().map(|s| s.texture.to_string()).collect(),
        corners,
        separations,
    })
}

fn directions(poly: &Poly) -> Directions {
    let positions: Vec<Vec3> = poly
        .verts
        .iter()
        .map(|v| Vec3::from_array(floats3(v.position)))
        .collect();
    let center = positions.iter().fold(Vec3::ZERO, |acc, p| acc + *p) / positions.len() as f32;
    let normal = Vec3::from_array(floats3(poly.normal));
    let from_center: Vec<Vec3> = positions.iter().map(|p| (*p - center).normalize()).collect();
    Directions {
        forward: from_center
            .iter()
            .map(|a| {
                let p = normal.cross(*a);
                from_center.iter().map(|b| p.dot(*b).to_bits()).collect()
            })
            .collect(),
        closeness: from_center
            .iter()
            .map(|a| from_center.iter().map(|b| a.dot(*b).to_bits()).collect())
            .collect(),
    }
}

fn mesh_of(sides: &[Side]) -> Result<Mesh, GeometryError> {
    let polys = survey(sides)?.to_polys();
    let directions: Vec<Directions> = polys.iter().map(directions).collect();
    Mesh::from_brush(&polys, &directions)
}

fn cube() -> Vec<Side> {
    vec![
        side([[-16.0, -64.0, -16.0], [-16.0, -63.0, -16.0], [-16.0, -64.0, -15.0]]),
        side([[-64.0, -16.0, -16.0], [-64.0, -16.0, -15.0], [-63.0, -16.0, -16.0]]),
        side([[-64.0, -64.0, -16.0], [-63.0, -64.0, -16.0], [-64.0, -63.0, -16.0]]),
        side([[64.0, 64.0, 16.0], [64.0, 65.0, 16.0], [65.0, 64.0, 16.0]]),
        side([[64.0, 16.0, 16.0], [65.0, 16.0, 16.0], [64.0, 16.0, 17.0]]),
        side([[16.0, 64.0, 16.0], [16.0, 64.0, 17.0], [16.0, 65.0, 16.0]]),
    ]
}

/// A pyramid with a square base: four planes meet at its apex.
fn pyramid() -> Vec<Side> {
    vec![
        side([[0.0, 0.0, 0.0], [1.0, 0.0, 0.0], [0.0, 1.0, 0.0]]),
        side([[16.0, -16.0, 0.0], [0.0, 0.0, 16.0], [16.0, 16.0, 0.0]]),
        side([[16.0, 16.0, 0.0], [0.0, 0.0, 16.0], [-16.0, 16.0, 0.0]]),
        side([[-16.0, 16.0, 0.0], [0.0, 0.0, 16.0], [-16.0, -16.0, 0.0]]),
        side([[-16.0, -16.0, 0.0], [0.0, 0.0, 16.0], [16.0, -16.0, 0.0]]),
    ]
}

fn well_formed(mesh: &Mesh) -> bool {
    mesh.normals.len() == mesh.positions.len()
        && mesh.uvs.len() == mesh.positions.len()
        && mesh.indices.len() % 3 == 0
        && mesh.indices.iter().all(|i| (*i as usize) < mesh.positions.len())
}

fn winds_outward(mesh: &Mesh) -> bool {
    mesh.indices.chunks(3).all(|t| {
        let a = Vec3::from_array(floats3(mesh.positions[t[0] as usize]));
        let b = Vec3::from_array(floats3(mesh.positions[t[1] as usize]));
        let c = Vec3::from_array(floats3(mesh.positions[t[2] as usize]));
        let n = Vec3::from_array(floats3(mesh.normals[t[0] as usize]));
        (b - a).cross(c - a).dot(n) > 0.0
    })
}

#[test]
fn test_mesh_merge() {
    let mesh1 = mesh(
        &[[0.0, 0.0, 0.0], [1.0, 0.0, 0.0], [2.0, 0.0, 0.0]],
        &[[0.0, 0.0, 0.0], [1.0, 0.0, 0.0], [2.0, 0.0, 0.0]],
        &[[0.0, 0.0], [1.0, 0.0], [2.0, 0.0]],
        &[0, 1, 2],
    );
    let mesh2 = mesh(
        &[[3.0, 0.0, 0.0], [4.0, 0.0, 0.0], [5.0, 0.0, 0.0]],
        &[[3.0, 0.0, 0.0], [4.0, 0.0, 0.0], [5.0, 0.0, 0.0]],
        &[[3.0, 0.0], [4.0, 0.0], [5.0, 0.0]],
        &[0, 1, 2],
    );
    let merged = Mesh::merge(vec![mesh1, mesh2]);

    assert_eq!(
        merged,
        mesh(
            &[
                [0.0, 0.0, 0.0],
                [1.0, 0.0, 0.0],
                [2.0, 0.0, 0.0],
                [3.0, 0.0, 0.0],
                [4.0, 0.0, 0.0],
                [5.0, 0.0, 0.0]
            ],
            &[
                [0.0, 0.0, 0.0],
                [1.0, 0.0, 0.0],
                [2.0, 0.0, 0.0],
                [3.0, 0.0, 0.0],
                [4.0, 0.0, 0.0],
                [5.0, 0.0, 0.0]
            ],
            &[
                [0.0, 0.0],
                [1.0, 0.0],
                [2.0, 0.0],
                [3.0, 0.0],
                [4.0, 0.0],
                [5.0, 0.0]
            ],
            &[0, 1, 2, 3, 4, 5],
        )
    )
}

#[test]
fn combs_util() {
    let mut v = Vec::new();
    let mut tmp = Vec::new();
    valve_map::combs_util(&mut v, &mut tmp, 3, 0, 2);
    assert_eq!(v.len(), 3);
    assert_eq!(v[0], vec![0, 1]);
    assert_eq!(v[1], vec![0, 2]);
    assert_eq!(v[2], vec![1, 2]);
}

#[test]
fn pairs() {
    let v = [1, 2, 3].combs(2);
    assert_eq!(v.len(), 3);
    assert_eq!(v[0], vec![&1, &2]);
    assert_eq!(v[1], vec![&1, &3]);
    assert_eq!(v[2], vec![&2, &3]);
}

#[test]
fn combs_util_adds_after_what_is_there() {
    let mut v = vec![vec![9]];
    let mut tmp = vec![7];
    valve_map::combs_util(&mut v, &mut tmp, 4, 1, 2);
    assert_eq!(
        v,
        vec![vec![9], vec![7, 1, 2], vec![7, 1, 3], vec![7, 2, 3]]
    );
    assert_eq!(tmp, vec![7]);
}

#[test]
fn combs_at_the_edges() {
    let none: [u8; 0] = [];
    assert_eq!(none.combs(0), vec![Vec::<&u8>::new()]);
    assert_eq!(none.combs(1), Vec::<Vec<&u8>>::new());
    assert_eq!([1, 2].combs(3), Vec::<Vec<&i32>>::new());
    assert_eq!([1, 2].combs(2), vec![vec![&1, &2]]);
    assert_eq!([5, 6, 7, 8].combs(3).len(), 4);
    assert_eq!([0u8; 12].combs(3).len(), 220);
    assert_eq!(
        ['a', 'b', 'c', 'd'].combs(3),
        vec![
            vec![&'a', &'b', &'c'],
            vec![&'a', &'b', &'d'],
            vec![&'a', &'c', &'d'],
            vec![&'b', &'c', &'d']
        ]
    );
}

#[test]
fn triples_of_the_faces() {
    assert_eq!(valve_map::triples(2), Vec::<[usize; 3]>::new());
    assert_eq!(valve_map::triples(3), vec![[0, 1, 2]]);
    assert_eq!(
        valve_map::triples(4),
        vec![[0, 1, 2], [0, 1, 3], [0, 2, 3], [1, 2, 3]]
    );
    assert_eq!(valve_map::triples(6).len(), 20);
}

#[test]
fn merge_of_nothing_is_empty() {
    assert_eq!(Mesh::merge(Vec::new()), Mesh::empty());
    assert_eq!(Mesh::merge(vec![Mesh::empty(), Mesh::empty()]), Mesh::empty());
    assert!(Mesh::empty().positions.is_empty() && Mesh::empty().indices.is_empty());
}

fn sample(n: u32, from: f32) -> Mesh {
    let points: Vec<[f32; 3]> = (0..n).map(|i| [from + i as f32, 0.0, 1.0]).collect();
    let uvs: Vec<[f32; 2]> = (0..n).map(|i| [from, i as f32]).collect();
    let indices: Vec<u32> = (2..n).flat_map(|i| [0, i - 1, i]).collect();
    mesh(&points, &points, &uvs, &indices)
}

#[test]
fn merging_is_associative() {
    let (a, b, c) = (|| sample(3, 0.0), || sample(4, 10.0), || sample(5, 20.0));
    let flat = Mesh::merge(vec![a(), b(), c()]);
    assert_eq!(Mesh::merge(vec![a(), Mesh::merge(vec![b(), c()])]), flat);
    assert_eq!(Mesh::merge(vec![Mesh::merge(vec![a(), b()]), c()]), flat);
    assert_eq!(flat.positions.len(), 12);
    assert_eq!(
        flat.indices,
        vec![0, 1, 2, 3, 4, 5, 3, 5, 6, 7, 8, 9, 7, 9, 10, 7, 10, 11]
    );
    assert!(well_formed(&flat));
}

#[test]
fn scalar_constants() {
    assert_eq!(scalar::ZERO, 0.0f32.to_bits());
    assert_eq!(scalar::MINUS_ONE, (-1.0f32).to_bits());
    assert_eq!(scalar::COLOCATED, 1e-3f32.to_bits());
    assert_eq!(scalar::COLLINEAR, 1e-6f32.to_bits());
    assert_eq!(scalar::INFINITE, f32::INFINITY.to_bits());
}

#[test]
fn scalar_compares_as_the_numbers_do() {
    let values = [
        0.0f32,
        -0.0,
        1.0,
        -1.0,
        1e-3,
        -1e-3,
        f32::MIN_POSITIVE,
        -f32::MIN_POSITIVE,
        1e-45,
        -1e-45,
        f32::MAX,
        f32::MIN,
        f32::INFINITY,
        f32::NEG_INFINITY,
        f32::NAN,
        -f32::NAN,
        f32::from_bits(0x7f80_0001),
        f32::from_bits(0xffff_ffff),
        0.5,
        2.0,
        -2.0,
        16.000002,
        16.0,
    ];
    for a in values {
        assert_eq!(scalar::nan(a.to_bits()), a.is_nan(), "{:?}", a);
        assert_eq!(scalar::positive(a.to_bits()), a > 0.0, "{:?}", a);
        assert_eq!(scalar::zero(a.to_bits()), a == 0.0, "{:?}", a);
        for b in values {
            assert_eq!(scalar::lt(a.to_bits(), b.to_bits()), a < b, "{:?} {:?}", a, b);
            assert_eq!(scalar::gt(a.to_bits(), b.to_bits()), a > b, "{:?} {:?}", a, b);
            assert_eq!(scalar::eq(a.to_bits(), b.to_bits()), a == b, "{:?} {:?}", a, b);
        }
    }
}

#[test]
fn plane_new_keeps_what_it_is_given() {
    let plane = Plane::new(bits3([1.0, 2.0, 3.0]), bits3([0.0, 0.0, 1.0]));
    assert_eq!(floats3(plane.origin), [1.0, 2.0, 3.0]);
    assert_eq!(floats3(plane.normal), [0.0, 0.0, 1.0]);
}

#[test]
fn plane_of_a_face() {
    let plane = plane_of(&cube()[0]).unwrap();
    assert_eq!(floats3(plane.origin), [-16.0, -64.0, -16.0]);
    assert_eq!(floats3(plane.normal), [-1.0, 0.0, 0.0]);
}

#[test]
fn degenerate_triangle() {
    let on_a_line = side([[0.0, 0.0, 0.0], [1.0, 1.0, 1.0], [3.0, 3.0, 3.0]]);
    assert_eq!(plane_of(&on_a_line), Err(GeometryError::DegeneratePlane));
    let twice = side([[0.0, 0.0, 0.0], [0.0, 1.0, 0.0], [-0.0, 1.0, 0.0]]);
    assert_eq!(plane_of(&twice), Err(GeometryError::DegeneratePlane));
    let first_twice = side([[5.0, 0.0, 0.0], [5.0, 0.0, 0.0], [0.0, 1.0, 0.0]]);
    assert_eq!(plane_of(&first_twice), Err(GeometryError::DegeneratePlane));
    let mut sides = cube();
    sides[2] = on_a_line;
    assert_eq!(mesh_of(&sides), Err(GeometryError::DegeneratePlane));
    let points = [bits3([0.0; 3]), bits3([1.0, 0.0, 0.0]), bits3([0.0, 1.0, 0.0])];
    let up = bits3([0.0, 0.0, -1.0]);
    assert!(Plane::from_triangle(points, up, 1.0f32.to_bits()).is_ok());
    assert!(Plane::from_triangle(points, up, 1e-6f32.to_bits()).is_ok());
    assert!(Plane::from_triangle(points, up, 9e-7f32.to_bits()).is_err());
    assert!(Plane::from_triangle(points, up, 0.0f32.to_bits()).is_err());
    assert!(Plane::from_triangle(points, up, f32::NAN.to_bits()).is_err());
}

#[test]
fn axis_aligned_cube() {
    let mesh = mesh_of(&cube()).unwrap();
    assert_eq!(mesh.positions.len(), 24);
    assert_eq!(mesh.indices.len(), 36);
    assert!(well_formed(&mesh));
    let expected = [
        [-1.0, 0.0, 0.0],
        [0.0, -1.0, 0.0],
        [0.0, 0.0, -1.0],
        [0.0, 0.0, 1.0],
        [0.0, 1.0, 0.0],
        [1.0, 0.0, 0.0],
    ];
    for (face, normal) in expected.iter().enumerate() {
        for v in 0..4 {
            assert_eq!(&floats3(mesh.normals[4 * face + v]), normal);
        }
        let indices: Vec<u32> = mesh.indices[6 * face..6 * face + 6].to_vec();
        let first = 4 * face as u32;
        assert_eq!(
            indices,
            vec![first, first + 1, first + 2, first, first + 2, first + 3]
        );
    }
    for p in &mesh.positions {
        for c in floats3(*p) {
            assert_eq!(c.abs(), 16.0);
        }
    }
}

#[test]
fn cube_vertices_lie_in_the_brush_and_on_their_face() {
    let sides = cube();
    let planes: Vec<Plane> = sides.iter().map(|s| plane_of(s).unwrap()).collect();
    let polys = survey(&sides).unwrap().to_polys();
    assert_eq!(polys.len(), 6);
    for (face, poly) in polys.iter().enumerate() {
        assert_eq!(poly.verts.len(), 4);
        assert_eq!(poly.texture, "stone");
        assert_eq!(poly.normal, planes[face].normal);
        for v in &poly.verts {
            let position = Vec3::from_array(floats3(v.position));
            assert_eq!(v.normal, poly.normal);
            for plane in &planes {
                assert!(normal(plane).dot(position - origin(plane)) <= 1e-3);
            }
            let own = &planes[face];
            assert!(normal(own).dot(position - origin(own)).abs() <= 1e-3);
        }
    }
}

#[test]
fn cube_triangles_wind_outward() {
    let mesh = mesh_of(&cube()).unwrap();
    assert!(winds_outward(&mesh));
}

#[test]
fn corners_where_four_planes_meet_are_taken_once() {
    let mesh = mesh_of(&pyramid()).unwrap();
    assert!(well_formed(&mesh));
    assert_eq!(mesh.positions.len(), 4 + 4 * 3);
    assert_eq!(mesh.indices.len(), 3 * (2 + 4));
    assert!(winds_outward(&mesh));
}

#[test]
fn uv_projection() {
    let mut sides = vec![
        side([[0.0, 128.0, 0.0], [0.0, 129.0, 0.0], [0.0, 128.0, 1.0]]),
        side([[64.0, 0.0, 0.0], [64.0, 0.0, 1.0], [65.0, 0.0, 0.0]]),
        side([[64.0, 128.0, 0.0], [65.0, 128.0, 0.0], [64.0, 129.0, 0.0]]),
        side([[64.0, 128.0, 32.0], [64.0, 129.0, 32.0], [65.0, 128.0, 32.0]]),
        side([[64.0, 128.0, 32.0], [65.0, 128.0, 32.0], [64.0, 128.0, 33.0]]),
        side([[64.0, 128.0, 32.0], [64.0, 128.0, 33.0], [64.0, 129.0, 32.0]]),
    ];
    let mesh = mesh_of(&sides).unwrap();
    assert_eq!(mesh.positions.len(), 24);
    let mut seen = 0;
    for (p, uv) in mesh.positions.iter().zip(mesh.uvs.iter()) {
        let p = floats3(*p);
        assert_eq!(floats2(*uv), [p[0] / 64.0, p[1] / 64.0]);
        if p[0] == 64.0 && p[1] == 128.0 {
            assert_eq!(floats2(*uv), [1.0, 2.0]);
            seen += 1;
        }
    }
    assert_eq!(seen, 6);
    for s in sides.iter_mut() {
        s.scale = [2.0, 0.5];
        s.offset = [32.0, -64.0];
        s.axis_v = [0.0, 0.0, 1.0];
    }
    let mesh = mesh_of(&sides).unwrap();
    for (p, uv) in mesh.positions.iter().zip(mesh.uvs.iter()) {
        let p = floats3(*p);
        assert_eq!(
            floats2(*uv),
            [(p[0] / 2.0 + 32.0) / 64.0, (p[2] / 0.5 - 64.0) / 64.0]
        );
    }
}

#[test]
fn open_brush_has_too_few_vertices() {
    let sides: Vec<Side> = cube().into_iter().take(3).collect();
    assert_eq!(mesh_of(&sides), Err(GeometryError::InsufficientVertices));
    assert_eq!(
        Mesh::from_brush(&Vec::new(), &Vec::new()),
        Ok(Mesh::empty())
    );
}

#[test]
fn empty_entity() {
    assert_eq!(Mesh::from_entity(Vec::new()), Err(GeometryError::NoGeometry));
}

#[test]
fn entity_of_two_brushes() {
    let cube_mesh = mesh_of(&cube()).unwrap();
    let pyramid_mesh = mesh_of(&pyramid()).unwrap();
    let entity = Mesh::from_entity(vec![mesh_of(&cube()), mesh_of(&pyramid())]).unwrap();
    assert_eq!(entity.positions.len(), 24 + 16);
    assert_eq!(entity.indices.len(), 36 + 18);
    assert!(well_formed(&entity));
    assert_eq!(entity.positions[..24], cube_mesh.positions[..]);
    assert_eq!(entity.positions[24..], pyramid_mesh.positions[..]);
    assert_eq!(entity.indices[..36], cube_mesh.indices[..]);
    for (i, j) in entity.indices[36..].iter().zip(pyramid_mesh.indices.iter()) {
        assert_eq!(*i, *j + 24);
    }
}

#[test]
fn one_bad_brush_fails_the_entity() {
    let bad = Err(GeometryError::InsufficientVertices);
    let worse = Err(GeometryError::DegeneratePlane);
    assert_eq!(
        Mesh::from_entity(vec![mesh_of(&cube()), bad.clone(), worse.clone()]),
        bad
    );
    assert_eq!(
        Mesh::from_entity(vec![worse.clone(), mesh_of(&cube()), bad]),
        worse
    );
}

fn corner(faces: [usize; 3], determinant: f32, x: f32, distances: &[f32]) -> Corner {
    Corner {
        faces,
        determinant: determinant.to_bits(),
        position: bits3([x, 0.0, 0.0]),
        distances: distances.iter().map(|d| d.to_bits()).collect(),
        uvs: [
            bits2([x, 0.0]),
            bits2([x, 1.0]),
            bits2([x, 2.0]),
        ],
    }
}

fn flat(n: usize, value: f32) -> Vec<Vec<u32>> {
    vec![vec![value.to_bits(); n]; n]
}

#[test]
fn corner_is_retained_unless_outside_a_plane() {
    assert!(corner([0, 1, 2], 1.0, 0.0, &[0.0, -0.0, -5.0]).is_retained());
    assert!(corner([0, 1, 2], -0.5, 0.0, &[]).is_retained());
    assert!(corner([0, 1, 2], 1.0, 0.0, &[f32::NAN, f32::NEG_INFINITY]).is_retained());
    assert!(!corner([0, 1, 2], 1.0, 0.0, &[0.0, 1e-30, -5.0]).is_retained());
    assert!(!corner([0, 1, 2], 1.0, 0.0, &[-1.0, -1.0, f32::INFINITY]).is_retained());
    assert!(!corner([0, 1, 2], 0.0, 0.0, &[-1.0]).is_retained());
    assert!(!corner([0, 1, 2], -0.0, 0.0, &[-1.0]).is_retained());
}

#[test]
fn to_polys_offers_each_corner_to_its_three_faces() {
    let plane = |z: f32| Plane::new(bits3([0.0; 3]), bits3([0.0, 0.0, z]));
    let survey = Survey {
        planes: vec![plane(0.0), plane(1.0), plane(2.0), plane(3.0)],
        textures: vec!["a".into(), "b".into(), "c".into(), "d".into()],
        corners: vec![
            corner([0, 1, 2], 1.0, 10.0, &[0.0, 0.0, 0.0, -1.0]),
            corner([0, 1, 3], 1.0, 11.0, &[0.0, 0.0, 1.0, 0.0]),
            corner([3, 2, 0], 1.0, 12.0, &[0.0, -1.0, 0.0, 0.0]),
            corner([1, 2, 3], 0.0, 13.0, &[-1.0, 0.0, 0.0, 0.0]),
        ],
        separations: flat(4, 1.0),
    };
    let polys = survey.to_polys();
    let seen: Vec<Vec<[f32; 2]>> = polys
        .iter()
        .map(|p| p.verts.iter().map(|v| floats2(v.uv)).collect())
        .collect();
    assert_eq!(
        seen,
        vec![
            vec![[10.0, 0.0], [12.0, 2.0]],
            vec![[10.0, 1.0]],
            vec![[10.0, 2.0], [12.0, 1.0]],
            vec![[12.0, 0.0]],
        ]
    );
    for (f, poly) in polys.iter().enumerate() {
        assert_eq!(floats3(poly.normal), [0.0, 0.0, f as f32]);
        assert_eq!(poly.texture, ["a", "b", "c", "d"][f]);
        for v in &poly.verts {
            assert_eq!(v.normal, poly.normal);
            assert_eq!(floats3(v.position)[0], floats2(v.uv)[0]);
        }
    }
}

#[test]
fn to_polys_passes_over_a_point_that_a_face_holds() {
    let plane = Plane::new(bits3([0.0; 3]), bits3([0.0, 0.0, 1.0]));
    let mut separations = flat(3, 1.0);
    separations[1][0] = 9e-4f32.to_bits();
    separations[2][1] = 0.0f32.to_bits();
    let survey = Survey {
        planes: vec![plane; 5],
        textures: vec![String::new(); 5],
        corners: vec![
            corner([0, 1, 2], 1.0, 10.0, &[0.0; 5]),
            corner([0, 1, 3], 1.0, 11.0, &[0.0; 5]),
            corner([0, 3, 4], 1.0, 12.0, &[0.0; 5]),
        ],
        separations,
    };
    let polys = survey.to_polys();
    let seen: Vec<Vec<f32>> = polys
        .iter()
        .map(|p| p.verts.iter().map(|v| floats3(v.position)[0]).collect())
        .collect();
    assert_eq!(
        seen,
        vec![
            vec![10.0, 12.0],
            vec![10.0],
            vec![10.0],
            vec![11.0],
            vec![12.0]
        ]
    );
}

fn poly_of(n: usize) -> Poly {
    Poly {
        normal: bits3([0.0, 0.0, 1.0]),
        verts: (0..n)
            .map(|i| Vert {
                position: bits3([i as f32, 0.0, 0.0]),
                normal: bits3([0.0, 0.0, 1.0]),
                uv: bits2([i as f32, 0.5]),
            })
            .collect(),
        texture: "t".to_string(),
    }
}

#[test]
fn add_vert_adds_unless_colocated() {
    let mut poly = poly_of(2);
    let far = vec![1.0f32.to_bits(), 1e-3f32.to_bits()];
    assert!(poly.add_vert(bits3([7.0, 8.0, 9.0]), bits2([0.25, 0.75]), &far));
    assert_eq!(poly.verts.len(), 3);
    assert_eq!(
        poly.verts[2],
        Vert {
            position: bits3([7.0, 8.0, 9.0]),
            normal: poly.normal,
            uv: bits2([0.25, 0.75]),
        }
    );
    let near = vec![1.0f32.to_bits(), 1.0f32.to_bits(), 9.9e-4f32.to_bits()];
    assert!(!poly.add_vert(bits3([7.0, 8.0, 9.0]), bits2([0.25, 0.75]), &near));
    assert_eq!(poly.verts.len(), 3);
    let unknown = vec![f32::NAN.to_bits(); 3];
    assert!(poly.add_vert(bits3([1.0, 1.0, 1.0]), bits2([0.0, 0.0]), &unknown));
    assert_eq!(poly.verts.len(), 4);
    let mut empty = poly_of(0);
    assert!(empty.add_vert(bits3([1.0, 1.0, 1.0]), bits2([0.0, 0.0]), &Vec::new()));
}

fn table(rows: &[&[f32]]) -> Vec<Vec<u32>> {
    rows.iter()
        .map(|r| r.iter().map(|x| x.to_bits()).collect())
        .collect()
}

/// Measurements of vertices that stand on a circle at the given angles, in degrees.
fn circle(angles: &[f32]) -> Directions {
    let at = |a: f32| Vec3::new(a.to_radians().cos(), a.to_radians().sin(), 0.0);
    Directions {
        forward: angles
            .iter()
            .map(|a| {
                angles
                    .iter()
                    .map(|b| Vec3::Z.cross(at(*a)).dot(at(*b)).to_bits())
                    .collect()
            })
            .collect(),
        closeness: angles
            .iter()
            .map(|a| angles.iter().map(|b| at(*a).dot(at(*b)).to_bits()).collect())
            .collect(),
    }
}

fn order_of(verts: &[Vert]) -> Vec<usize> {
    verts
        .iter()
        .map(|v| f32::from_bits(v.position[0]) as usize)
        .collect()
}

#[test]
fn ordered_verts_go_round() {
    let angles = [10.0, 250.0, 130.0, 70.0, 310.0, 190.0];
    let directions = circle(&angles);
    assert_eq!(directions.arrange(6), vec![0, 3, 2, 5, 1, 4]);
    let ordered = poly_of(6).ordered_verts(&directions).unwrap();
    assert_eq!(order_of(&ordered), vec![0, 3, 2, 5, 1, 4]);
    let square = circle(&[45.0, 225.0, 315.0, 135.0]);
    assert_eq!(square.arrange(4), vec![0, 3, 1, 2]);
    let triangle = circle(&[0.0, 240.0, 120.0]);
    assert_eq!(triangle.arrange(3), vec![0, 2, 1]);
}

#[test]
fn ordered_verts_takes_the_first_of_equals_and_stays_where_none_follows() {
    let directions = Directions {
        forward: table(&[
            &[0.0, 1.0, 1.0, 1.0],
            &[0.0; 4],
            &[0.0, -1.0, 0.0, f32::NAN],
            &[0.0; 4],
        ]),
        closeness: table(&[
            &[1.0, 0.5, 0.75, 0.75],
            &[0.0; 4],
            &[0.0; 4],
            &[0.0; 4],
        ]),
    };
    assert_eq!(directions.arrange(4), vec![0, 2, 1, 3]);
    let nothing = Directions {
        forward: flat(4, 1.0),
        closeness: flat(4, -1.0),
    };
    assert_eq!(nothing.arrange(4), vec![0, 1, 2, 3]);
    let unknown = Directions {
        forward: flat(3, 1.0),
        closeness: flat(3, f32::NAN),
    };
    assert_eq!(unknown.arrange(3), vec![0, 1, 2]);
    assert_eq!(unknown.arrange(0), Vec::<usize>::new());
}

#[test]
fn too_few_vertices() {
    for n in 0..3 {
        let directions = circle(&[0.0, 120.0, 240.0][..n]);
        assert_eq!(
            poly_of(n).ordered_verts(&directions),
            Err(GeometryError::InsufficientVertices)
        );
        assert_eq!(
            poly_of(n).triangulate(&directions),
            Err(GeometryError::InsufficientVertices)
        );
        assert_eq!(
            Mesh::from_brush(&vec![poly_of(n)], &vec![directions]),
            Err(GeometryError::InsufficientVertices)
        );
    }
}

#[test]
fn triangulate_fans_out_from_the_first_vertex() {
    let directions = circle(&[0.0, 288.0, 72.0, 216.0, 144.0]);
    let mesh = poly_of(5).triangulate(&directions).unwrap();
    let xs: Vec<f32> = mesh.positions.iter().map(|p| floats3(*p)[0]).collect();
    assert_eq!(xs, vec![0.0, 2.0, 4.0, 3.0, 1.0]);
    let us: Vec<f32> = mesh.uvs.iter().map(|p| floats2(*p)[0]).collect();
    assert_eq!(us, xs);
    assert_eq!(mesh.normals, vec![bits3([0.0, 0.0, 1.0]); 5]);
    assert_eq!(mesh.indices, vec![0, 1, 2, 0, 2, 3, 0, 3, 4]);
    let three = poly_of(3).triangulate(&circle(&[0.0, 120.0, 240.0])).unwrap();
    assert_eq!(three.indices, vec![0, 1, 2]);
}

#[test]
fn from_brush_merges_the_fans() {
    let polys = vec![poly_of(4), poly_of(3)];
    let directions = vec![
        circle(&[0.0, 90.0, 180.0, 270.0]),
        circle(&[0.0, 240.0, 120.0]),
    ];
    let mesh = Mesh::from_brush(&polys, &directions).unwrap();
    let xs: Vec<f32> = mesh.positions.iter().map(|p| floats3(*p)[0]).collect();
    assert_eq!(xs, vec![0.0, 1.0, 2.0, 3.0, 0.0, 2.0, 1.0]);
    assert_eq!(mesh.indices, vec![0, 1, 2, 0, 2, 3, 4, 5, 6]);
    assert!(well_formed(&mesh));
}
