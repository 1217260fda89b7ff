//! A brush: faces between curly brackets.

use crate::error::ParseError;
use crate::parsers::common::{char_at, expect, skip_ignored, token_at, yields};
use crate::parsers::face::{face, face_at};
use crate::types::{brush_wf, Brush, Face, FaceView};
use vstd::prelude::*;

verus! {

/// The faces that follow one another from `i` on, each with what is ignored
/// before and after it, and the place after the last of them.
pub open spec fn faces_at(s: Seq<char>, i: int) -> (int, Seq<FaceView>)
    decreases s.len() - i,
{
    match face_at(s, token_at(s, i)) {
        Ok((end, face)) => {
            let next = token_at(s, end);
            if i < next <= s.len() {
                let rest = faces_at(s, next);
                (rest.0, seq![face] + rest.1)
            } else {
                (i, Seq::empty())
            }
        },
        Err(_) => (i, Seq::empty()),
    }
}

/// What `brush` reads at `i`: an opening curly bracket, one face or more,
/// and a closing curly bracket. Blank characters and comments may stand
/// before and after each face.
pub open spec fn brush_at(s: Seq<char>, i: int) -> Result<(int, Seq<FaceView>), ParseError> {
    match char_at(s, i, '{') {
        Err(e) => Err(e),
        Ok(a) => match face_at(s, token_at(s, a)) {
            Err(e) => Err(e),
            Ok(_) => {
                let (b, faces) = faces_at(s, a);
                match char_at(s, b, '}') {
                    Err(e) => Err(e),
                    Ok(end) => Ok((end, faces)),
                }
            },
        },
    }
}

/// The views of the faces of a list.
pub open spec fn face_views(faces: Seq<Face>) -> Seq<FaceView> {
    Seq::new(faces.len(), |j: int| faces[j]@)
}

/// Reads a brush.
pub fn brush(input: &[char], i: usize) -> (r: Result<(usize, Brush), ParseError>)
    requires
        i <= input@.len(),
    ensures
        yields(r, brush_at(input@, i as int)),
        r matches Ok((end, brush)) ==> i < end <= input@.len() && brush_wf(brush@),
{
    let a = expect(input, i, '{')?;
    let mut faces: Vec<Face> = Vec::new();
    let mut at = a;
    loop
        invariant
            a <= at <= input@.len(),
            char_at(input@, i as int, '{') == Ok::<int, ParseError>(a as int),
            faces_at(input@, a as int).0 == faces_at(input@, at as int).0,
            faces_at(input@, a as int).1 == face_views(faces@) + faces_at(input@, at as int).1,
            forall|j: int| 0 <= j < faces@.len() ==> (#[trigger] faces@[j])@.wf(),
            faces@.len() == 0 ==> at == a,
        ensures
            a <= at <= input@.len(),
            faces@.len() > 0,
            at == faces_at(input@, a as int).0,
            face_views(faces@) == faces_at(input@, a as int).1,
            forall|j: int| 0 <= j < faces@.len() ==> (#[trigger] faces@[j])@.wf(),
            face_at(input@, token_at(input@, a as int)) is Ok,
        decreases input@.len() - at,
    {
        let ghost before = face_views(faces@);
        let from = skip_ignored(input, at);
        match face(input, from) {
            Ok((end, face)) => {
                let next = skip_ignored(input, end);
                proof {
                    let tail = faces_at(input@, next as int).1;
                    assert(face_views(faces@.push(face)) =~= before.push(face@));
                    assert(before.push(face@) + tail =~= before + (seq![face@] + tail));
                }
                faces.push(face);
                at = next;
            },
            Err(e) => {
                if faces.len() == 0 {
                    return Err(e);
                }
                assert(before + Seq::<FaceView>::empty() =~= before);
                break ;
            },
        }
    }
    let end = expect(input, at, '}')?;
    let brush = Brush { faces };
    assert(brush@ =~= face_views(brush.faces@));
    Ok((end, brush))
}

} // verus!
