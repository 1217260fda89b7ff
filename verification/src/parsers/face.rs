//! A face of a brush: three points, a texture, and how the texture lies.

use crate::error::ParseError;
use crate::parsers::common::{char_at, expect, num_f32, number_at, tag, tag_at, text, text_at, yields};
use crate::types::{are_numbers, triple, Face, FaceView, Number};
use vstd::prelude::*;

verus! {

/// What `vec3` reads at `i`: three numbers with one space between each two.
pub open spec fn vec3_at(s: Seq<char>, i: int) -> Result<(int, Seq<Seq<char>>), ParseError> {
    match number_at(s, i) {
        Err(e) => Err(e),
        Ok((a, x)) => match char_at(s, a, ' ') {
            Err(e) => Err(e),
            Ok(b) => match number_at(s, b) {
                Err(e) => Err(e),
                Ok((c, y)) => match char_at(s, c, ' ') {
                    Err(e) => Err(e),
                    Ok(d) => match number_at(s, d) {
                        Err(e) => Err(e),
                        Ok((end, z)) => Ok((end, seq![x, y, z])),
                    },
                },
            },
        },
    }
}

/// Reads three numbers.
pub fn vec3(input: &[char], i: usize) -> (r: Result<(usize, [Number; 3]), ParseError>)
    requires
        i <= input@.len(),
    ensures
        match r {
            Ok((end, v)) => vec3_at(input@, i as int) == Ok::<(int, Seq<Seq<char>>), ParseError>(
                (end as int, triple(v)),
            ) && i < end <= input@.len() && are_numbers(triple(v), 3),
            Err(e) => vec3_at(input@, i as int) == Err::<(int, Seq<Seq<char>>), ParseError>(e),
        },
{
    let (a, x) = num_f32(input, i)?;
    let b = expect(input, a, ' ')?;
    let (c, y) = num_f32(input, b)?;
    let d = expect(input, c, ' ')?;
    let (end, z) = num_f32(input, d)?;
    Ok((end, [x, y, z]))
}

/// What opens a point.
pub open spec fn point_open() -> Seq<char> {
    seq!['(', ' ']
}

/// What stands between two points.
pub open spec fn point_next() -> Seq<char> {
    seq![' ', ')', ' ', '(', ' ']
}

/// What closes a point.
pub open spec fn point_close() -> Seq<char> {
    seq![' ', ')']
}

/// What `triangle` reads at `i`: three points, each three numbers between
/// round brackets, with one space inside each bracket and between the points.
pub open spec fn triangle_at(s: Seq<char>, i: int) -> Result<
    (int, Seq<Seq<Seq<char>>>),
    ParseError,
> {
    match tag_at(s, i, point_open()) {
        Err(e) => Err(e),
        Ok(a) => match vec3_at(s, a) {
            Err(e) => Err(e),
            Ok((b, first)) => match tag_at(s, b, point_next()) {
                Err(e) => Err(e),
                Ok(c) => match vec3_at(s, c) {
                    Err(e) => Err(e),
                    Ok((d, second)) => match tag_at(s, d, point_next()) {
                        Err(e) => Err(e),
                        Ok(f) => match vec3_at(s, f) {
                            Err(e) => Err(e),
                            Ok((g, third)) => match tag_at(s, g, point_close()) {
                                Err(e) => Err(e),
                                Ok(end) => Ok((end, seq![first, second, third])),
                            },
                        },
                    },
                },
            },
        },
    }
}

/// The three points of a triangle.
pub open spec fn points(t: [[Number; 3]; 3]) -> Seq<Seq<Seq<char>>> {
    seq![triple(t[0]), triple(t[1]), triple(t[2])]
}

/// Reads the three points of a face.
pub fn triangle(input: &[char], i: usize) -> (r: Result<(usize, [[Number; 3]; 3]), ParseError>)
    requires
        i <= input@.len(),
    ensures
        match r {
            Ok((end, t)) => triangle_at(input@, i as int) == Ok::<
                (int, Seq<Seq<Seq<char>>>),
                ParseError,
            >((end as int, points(t))) && i < end <= input@.len() && (forall|p: int|
                0 <= p < 3 ==> are_numbers(#[trigger] points(t)[p], 3)),
            Err(e) => triangle_at(input@, i as int) == Err::<
                (int, Seq<Seq<Seq<char>>>),
                ParseError,
            >(e),
        },
{
    let open = ['(', ' '];
    let next = [' ', ')', ' ', '(', ' '];
    let close = [' ', ')'];
    assert(open@ =~= point_open());
    assert(next@ =~= point_next());
    assert(close@ =~= point_close());
    let a = tag(input, i, &open)?;
    let (b, first) = vec3(input, a)?;
    let c = tag(input, b, &next)?;
    let (d, second) = vec3(input, c)?;
    let f = tag(input, d, &next)?;
    let (g, third) = vec3(input, f)?;
    let end = tag(input, g, &close)?;
    Ok((end, [first, second, third]))
}

/// What opens an axis.
pub open spec fn axis_open() -> Seq<char> {
    seq!['[', ' ']
}

/// What closes an axis.
pub open spec fn axis_close() -> Seq<char> {
    seq![' ', ']']
}

/// A texture axis at `i`: between square brackets, with one space inside
/// each, the three numbers of a direction, one space and an offset.
pub open spec fn axis_at(s: Seq<char>, i: int) -> Result<
    (int, (Seq<Seq<char>>, Seq<char>)),
    ParseError,
> {
    match tag_at(s, i, axis_open()) {
        Err(e) => Err(e),
        Ok(a) => match vec3_at(s, a) {
            Err(e) => Err(e),
            Ok((b, direction)) => match char_at(s, b, ' ') {
                Err(e) => Err(e),
                Ok(c) => match number_at(s, c) {
                    Err(e) => Err(e),
                    Ok((d, offset)) => match tag_at(s, d, axis_close()) {
                        Err(e) => Err(e),
                        Ok(end) => Ok((end, (direction, offset))),
                    },
                },
            },
        },
    }
}

/// Reads a texture axis: its direction and its offset.
fn axis(input: &[char], i: usize) -> (r: Result<(usize, [Number; 3], Number), ParseError>)
    requires
        i <= input@.len(),
    ensures
        match r {
            Ok((end, direction, offset)) => axis_at(input@, i as int) == Ok::<
                (int, (Seq<Seq<char>>, Seq<char>)),
                ParseError,
            >((end as int, (triple(direction), offset@))) && i < end <= input@.len()
                && are_numbers(triple(direction), 3) && offset.wf(),
            Err(e) => axis_at(input@, i as int) == Err::<
                (int, (Seq<Seq<char>>, Seq<char>)),
                ParseError,
            >(e),
        },
{
    let open = ['[', ' '];
    let close = [' ', ']'];
    assert(open@ =~= axis_open());
    assert(close@ =~= axis_close());
    let a = tag(input, i, &open)?;
    let (b, direction) = vec3(input, a)?;
    let c = expect(input, b, ' ')?;
    let (d, offset) = num_f32(input, c)?;
    let end = tag(input, d, &close)?;
    Ok((end, direction, offset))
}

/// What `face` reads at `i`, with one space between each two parts: the
/// three points; the name of the texture; the axis along which the first
/// texture coordinate grows, and the one of the second; and three numbers:
/// the rotation, and the scale along the one axis and the other.
#[verifier::opaque]
pub open spec fn face_at(s: Seq<char>, i: int) -> Result<(int, FaceView), ParseError> {
    match triangle_at(s, i) {
        Err(e) => Err(e),
        Ok((a, triangle)) => match char_at(s, a, ' ') {
            Err(e) => Err(e),
            Ok(b) => match text_at(s, b) {
                Err(e) => Err(e),
                Ok((c, texture_name)) => match char_at(s, c, ' ') {
                    Err(e) => Err(e),
                    Ok(d) => match axis_at(s, d) {
                        Err(e) => Err(e),
                        Ok((f, u)) => match char_at(s, f, ' ') {
                            Err(e) => Err(e),
                            Ok(g) => match axis_at(s, g) {
                                Err(e) => Err(e),
                                Ok((h, v)) => match char_at(s, h, ' ') {
                                    Err(e) => Err(e),
                                    Ok(j) => match vec3_at(s, j) {
                                        Err(e) => Err(e),
                                        Ok((end, last)) => Ok(
                                            (
                                                end,
                                                FaceView {
                                                    triangle,
                                                    texture_name,
                                                    axis_u: u.0,
                                                    axis_v: v.0,
                                                    offset: seq![u.1, v.1],
                                                    rotation: last[0],
                                                    scale: seq![last[1], last[2]],
                                                },
                                            ),
                                        ),
                                    },
                                },
                            },
                        },
                    },
                },
            },
        },
    }
}

/// Reads a face.
pub fn face(input: &[char], i: usize) -> (r: Result<(usize, Face), ParseError>)
    requires
        i <= input@.len(),
    ensures
        yields(r, face_at(input@, i as int)),
        r matches Ok((end, face)) ==> i < end <= input@.len() && face@.wf(),
{
    reveal(face_at);
    let (a, triangle) = triangle(input, i)?;
    let b = expect(input, a, ' ')?;
    let (c, texture_name) = text(input, b)?;
    let d = expect(input, c, ' ')?;
    let (f, axis_u, offset_x) = axis(input, d)?;
    let g = expect(input, f, ' ')?;
    let (h, axis_v, offset_y) = axis(input, g)?;
    let j = expect(input, h, ' ')?;
    let (k, rotation) = num_f32(input, j)?;
    let l = expect(input, k, ' ')?;
    let (m, scale_x) = num_f32(input, l)?;
    let n = expect(input, m, ' ')?;
    let (end, scale_y) = num_f32(input, n)?;
    let face = Face {
        triangle,
        texture_name,
        axis_u,
        axis_v,
        offset: [offset_x, offset_y],
        rotation,
        scale: [scale_x, scale_y],
    };
    proof {
        let said = face_at(input@, i as int);
        assert(said is Ok);
        let view = said->Ok_0.1;
        assert(face@.triangle =~= view.triangle);
        assert(face@.offset =~= view.offset);
        assert(face@.scale =~= view.scale);
        assert(face@ == view);
    }
    Ok((end, face))
}

} // verus!
