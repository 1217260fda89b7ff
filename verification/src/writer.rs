//! Writing a map as text, in the form that the parser reads.
//!
//! ```text
//! {
//! "classname" "worldspawn"
//! {
//! ( -16 -64 -16 ) ( -16 -63 -16 ) ( -16 -64 -15 ) stone [ 0 -1 0 0 ] [ 0 0 -1 0 ] 0 1 1
//! }
//! }
//! ```
//!
//! Each text is defined with what follows it, so that the texts of the
//! parts of a thing string together without brackets to move.

use crate::error::ParseError;
use crate::parsers::brush::{brush_at, faces_at};
use crate::parsers::common::{
    char_at, comment_at, ignored_at, member, number_at, push_char, run_end, string_at, tag_at,
    text_at, token_at, Class,
};
use crate::parsers::entity::{brushes_at, entity_at, properties_at};
use crate::parsers::face::{
    axis_at, axis_close, axis_open, face_at, point_close, point_next, point_open, triangle_at,
    vec3_at,
};
use crate::parsers::map::entities_at;
use crate::parsers::property::property_at;
use crate::types::{
    are_numbers, are_quotable, brush_wf, digits_end, is_blank, is_digit, is_name, is_number,
    is_quotable, texts, triple, Brush, Draft, Entity, EntityView, Face, FaceView, MapFile, Number,
};
use vstd::prelude::*;
use vstd::string::StringExecFns;

verus! {

/// The character `c`, then `rest`.
pub open spec fn then(c: char, rest: Seq<char>) -> Seq<char> {
    seq![c] + rest
}

/// Three numbers with a space between each two, then `rest`.
#[verifier::opaque]
pub open spec fn vec3_then(v: Seq<Seq<char>>, rest: Seq<char>) -> Seq<char> {
    v[0] + then(' ', v[1] + then(' ', v[2] + rest))
}

/// Three points in round brackets, then `rest`.
#[verifier::opaque]
pub open spec fn triangle_then(t: Seq<Seq<Seq<char>>>, rest: Seq<char>) -> Seq<char> {
    point_open() + vec3_then(
        t[0],
        point_next() + vec3_then(t[1], point_next() + vec3_then(t[2], point_close() + rest)),
    )
}

/// A texture axis in square brackets, then `rest`.
#[verifier::opaque]
pub open spec fn axis_then(direction: Seq<Seq<char>>, offset: Seq<char>, rest: Seq<char>) -> Seq<
    char,
> {
    axis_open() + vec3_then(direction, then(' ', offset + (axis_close() + rest)))
}

/// A face on one line, then `rest`.
#[verifier::opaque]
pub open spec fn face_then(f: FaceView, rest: Seq<char>) -> Seq<char> {
    triangle_then(
        f.triangle,
        then(
            ' ',
            f.texture_name + then(
                ' ',
                axis_then(
                    f.axis_u,
                    f.offset[0],
                    then(
                        ' ',
                        axis_then(
                            f.axis_v,
                            f.offset[1],
                            then(' ', vec3_then(seq![f.rotation, f.scale[0], f.scale[1]], rest)),
                        ),
                    ),
                ),
            ),
        ),
    )
}

/// The faces, each on a line of its own, then `rest`.
pub open spec fn faces_then(faces: Seq<FaceView>, rest: Seq<char>) -> Seq<char>
    decreases faces.len(),
{
    if faces.len() == 0 {
        rest
    } else {
        face_then(faces[0], then('\n', faces_then(faces.skip(1), rest)))
    }
}

/// A brush: its faces between curly brackets, then `rest`.
#[verifier::opaque]
pub open spec fn brush_then(brush: Seq<FaceView>, rest: Seq<char>) -> Seq<char> {
    then('{', then('\n', faces_then(brush, then('}', rest))))
}

/// The brushes, each ended by a line feed, then `rest`.
pub open spec fn brushes_then(brushes: Seq<Seq<FaceView>>, rest: Seq<char>) -> Seq<char>
    decreases brushes.len(),
{
    if brushes.len() == 0 {
        rest
    } else {
        brush_then(brushes[0], then('\n', brushes_then(brushes.skip(1), rest)))
    }
}

/// A text between quotes, then `rest`.
#[verifier::opaque]
pub open spec fn quoted_then(t: Seq<char>, rest: Seq<char>) -> Seq<char> {
    then('"', t + then('"', rest))
}

/// A property: its key and its value, each between quotes, then `rest`.
#[verifier::opaque]
pub open spec fn property_then(entry: (Seq<char>, Seq<char>), rest: Seq<char>) -> Seq<char> {
    quoted_then(entry.0, then(' ', quoted_then(entry.1, rest)))
}

/// The properties, each on a line of its own, then `rest`.
pub open spec fn properties_then(entries: Seq<(Seq<char>, Seq<char>)>, rest: Seq<char>) -> Seq<
    char,
>
    decreases entries.len(),
{
    if entries.len() == 0 {
        rest
    } else {
        property_then(entries[0], then('\n', properties_then(entries.skip(1), rest)))
    }
}

/// An entity: its properties, then its brushes, between curly brackets,
/// then `rest`.
#[verifier::opaque]
pub open spec fn entity_then(entity: Draft, rest: Seq<char>) -> Seq<char> {
    then(
        '{',
        then('\n', properties_then(entity.entries, brushes_then(entity.brushes, then('}', rest)))),
    )
}

/// The entities, each ended by a line feed.
pub open spec fn map_text(entities: Seq<Draft>) -> Seq<char>
    decreases entities.len(),
{
    if entities.len() == 0 {
        Seq::empty()
    } else {
        entity_then(entities[0], then('\n', map_text(entities.skip(1))))
    }
}

/// The entities that the drafts are drafts of.
pub open spec fn entities_of(drafts: Seq<Draft>) -> Seq<EntityView> {
    Seq::new(drafts.len(), |i: int| drafts[i].entity())
}

/// Every draft is well formed.
pub open spec fn drafts_wf(drafts: Seq<Draft>) -> bool {
    forall|i: int| 0 <= i < drafts.len() ==> (#[trigger] drafts[i]).wf()
}

/// The input goes on at `i` with the text `t`.
spec fn has_at(s: Seq<char>, i: int, t: Seq<char>) -> bool {
    &&& 0 <= i
    &&& i + t.len() <= s.len()
    &&& s.subrange(i, i + t.len()) == t
}

/// Where a text of two parts stands, the first part stands, and the second after it.
proof fn has_at_parts(s: Seq<char>, i: int, a: Seq<char>, b: Seq<char>)
    requires
        has_at(s, i, a + b),
    ensures
        has_at(s, i, a),
        has_at(s, i + a.len(), b),
        b.len() > 0 ==> s[i + a.len()] == b[0],
{
    let whole = s.subrange(i, i + (a + b).len());
    assert(s.subrange(i, i + a.len()) =~= a) by {
        assert forall|k: int| 0 <= k < a.len() implies s.subrange(i, i + a.len())[k] == a[k] by {
            assert(whole[k] == (a + b)[k]);
        }
    }
    assert(s.subrange(i + a.len(), i + a.len() + b.len()) =~= b) by {
        assert forall|k: int| 0 <= k < b.len() implies s.subrange(
            i + a.len(),
            i + a.len() + b.len(),
        )[k] == b[k] by {
            assert(whole[a.len() + k] == (a + b)[a.len() + k]);
        }
    }
    if b.len() > 0 {
        assert(whole[a.len() as int] == (a + b)[a.len() as int]);
    }
}

/// Where `c` and then `rest` stand, the character at the place is `c`, and
/// `rest` stands after it.
proof fn has_at_then(s: Seq<char>, i: int, c: char, rest: Seq<char>)
    requires
        has_at(s, i, then(c, rest)),
    ensures
        0 <= i < s.len(),
        s[i] == c,
        char_at(s, i, c) == Ok::<int, ParseError>(i + 1),
        has_at(s, i + 1, rest),
{
    has_at_parts(s, i, seq![c], rest);
    assert(s.subrange(i, i + 1)[0] == s[i]);
}

/// A run of characters of one kind, where something else follows, ends
/// where it follows.
proof fn run_then(s: Seq<char>, i: int, t: Seq<char>, rest: Seq<char>, class: Class)
    requires
        has_at(s, i, t + rest),
        forall|k: int| 0 <= k < t.len() ==> member(class, #[trigger] t[k]),
        rest.len() > 0,
        !member(class, rest[0]),
    ensures
        run_end(s, i, class) == i + t.len(),
        s.subrange(i, i + t.len()) == t,
        has_at(s, i + t.len(), rest),
    decreases t.len(),
{
    has_at_parts(s, i, t, rest);
    if t.len() > 0 {
        assert(s.subrange(i, i + t.len())[0] == s[i]);
        assert(t + rest =~= seq![t[0]] + (t.skip(1) + rest));
        has_at_parts(s, i, seq![t[0]], t.skip(1) + rest);
        assert forall|k: int| 0 <= k < t.skip(1).len() implies member(
            class,
            #[trigger] t.skip(1)[k],
        ) by {
            assert(t.skip(1)[k] == t[k + 1]);
        }
        run_then(s, i + 1, t.skip(1), rest, class);
    }
}

/// Digits end at the first character that is no digit, or where the text ends.
proof fn digits_end_is_first_other(t: Seq<char>, i: int)
    requires
        0 <= i <= t.len(),
    ensures
        i <= digits_end(t, i) <= t.len(),
        forall|j: int| i <= j < digits_end(t, i) ==> is_digit(#[trigger] t[j]),
    decreases t.len() - i,
{
    if i < t.len() && is_digit(t[i]) {
        digits_end_is_first_other(t, i + 1);
    }
}

/// A number is written with the characters that numbers are written with.
proof fn number_is_of_numerals(t: Seq<char>)
    requires
        is_number(t),
    ensures
        t.len() > 0,
        forall|k: int| 0 <= k < t.len() ==> member(Class::Numeral, #[trigger] t[k]),
{
    let a = if 0 < t.len() && t[0] == '-' {
        1int
    } else {
        0int
    };
    digits_end_is_first_other(t, a);
    let b = digits_end(t, a);
    if b < t.len() && t[b] == '.' {
        digits_end_is_first_other(t, b + 1);
    }
    let c = if b < t.len() && t[b] == '.' {
        digits_end(t, b + 1)
    } else {
        b
    };
    if c < t.len() {
        let d = if c + 1 < t.len() && (t[c + 1] == '-' || t[c + 1] == '+') {
            c + 2
        } else {
            c + 1
        };
        digits_end_is_first_other(t, d);
    }
}

/// A number is read back where something follows it that is not written
/// as numbers are.
proof fn number_then(s: Seq<char>, i: int, t: Seq<char>, rest: Seq<char>)
    requires
        has_at(s, i, t + rest),
        is_number(t),
        rest.len() > 0,
        !member(Class::Numeral, rest[0]),
    ensures
        number_at(s, i) == Ok::<(int, Seq<char>), ParseError>((i + t.len(), t)),
        has_at(s, i + t.len(), rest),
{
    number_is_of_numerals(t);
    run_then(s, i, t, rest, Class::Numeral);
}

/// A tag is read back.
proof fn tag_then(s: Seq<char>, i: int, t: Seq<char>, rest: Seq<char>)
    requires
        has_at(s, i, t + rest),
    ensures
        tag_at(s, i, t) == Ok::<int, ParseError>(i + t.len()),
        has_at(s, i + t.len(), rest),
    decreases t.len(),
{
    has_at_parts(s, i, t, rest);
    if t.len() > 0 {
        assert(t + rest =~= then(t[0], t.skip(1) + rest));
        has_at_then(s, i, t[0], t.skip(1) + rest);
        tag_then(s, i + 1, t.skip(1), rest);
    }
}

/// How long three numbers are, written.
spec fn vec3_len(v: Seq<Seq<char>>) -> nat {
    v[0].len() + v[1].len() + v[2].len() + 2
}

/// The length of the text of three numbers.
proof fn vec3_len_is(v: Seq<Seq<char>>, rest: Seq<char>)
    ensures
        vec3_then(v, rest).len() == vec3_len(v) + rest.len(),
{
    reveal(vec3_then);
}

/// Three numbers are read back where something follows them that is not
/// written as numbers are.
proof fn vec3_is_read(s: Seq<char>, i: int, v: Seq<Seq<char>>, rest: Seq<char>)
    requires
        has_at(s, i, vec3_then(v, rest)),
        are_numbers(v, 3),
        rest.len() > 0,
        !member(Class::Numeral, rest[0]),
    ensures
        vec3_at(s, i) == Ok::<(int, Seq<Seq<char>>), ParseError>((i + vec3_len(v), v)),
        has_at(s, i + vec3_len(v), rest),
{
    reveal(vec3_then);
    let r1 = then(' ', v[1] + then(' ', v[2] + rest));
    number_then(s, i, v[0], r1);
    let a = i + v[0].len();
    has_at_then(s, a, ' ', v[1] + then(' ', v[2] + rest));
    number_then(s, a + 1, v[1], then(' ', v[2] + rest));
    let c = a + 1 + v[1].len();
    has_at_then(s, c, ' ', v[2] + rest);
    number_then(s, c + 1, v[2], rest);
    assert(seq![v[0], v[1], v[2]] =~= v);
}

/// How long a triangle is, written.
spec fn triangle_len(t: Seq<Seq<Seq<char>>>) -> nat {
    vec3_len(t[0]) + vec3_len(t[1]) + vec3_len(t[2]) + 14
}

/// The length of the text of a triangle.
proof fn triangle_len_is(t: Seq<Seq<Seq<char>>>, rest: Seq<char>)
    ensures
        triangle_then(t, rest).len() == triangle_len(t) + rest.len(),
        triangle_then(t, rest)[0] == '(',
{
    reveal(triangle_then);
    let r3 = point_close() + rest;
    let r2 = point_next() + vec3_then(t[2], r3);
    let r1 = point_next() + vec3_then(t[1], r2);
    vec3_len_is(t[0], r1);
    vec3_len_is(t[1], r2);
    vec3_len_is(t[2], r3);
}

/// How long an axis is, written.
spec fn axis_len(direction: Seq<Seq<char>>, offset: Seq<char>) -> nat {
    vec3_len(direction) + offset.len() + 5
}

/// The length of the text of an axis.
proof fn axis_len_is(direction: Seq<Seq<char>>, offset: Seq<char>, rest: Seq<char>)
    ensures
        axis_then(direction, offset, rest).len() == axis_len(direction, offset) + rest.len(),
{
    reveal(axis_then);
    vec3_len_is(direction, then(' ', offset + (axis_close() + rest)));
}

/// A triangle is read back.
proof fn triangle_is_read(s: Seq<char>, i: int, t: Seq<Seq<Seq<char>>>, rest: Seq<char>)
    requires
        has_at(s, i, triangle_then(t, rest)),
        t.len() == 3,
        forall|p: int| 0 <= p < 3 ==> are_numbers(#[trigger] t[p], 3),
    ensures
        triangle_at(s, i) == Ok::<(int, Seq<Seq<Seq<char>>>), ParseError>(
            (i + triangle_len(t), t),
        ),
        has_at(s, i + triangle_len(t), rest),
{
    reveal(triangle_then);
    let r3 = point_close() + rest;
    let r2 = point_next() + vec3_then(t[2], r3);
    let r1 = point_next() + vec3_then(t[1], r2);
    assert(are_numbers(t[0], 3) && are_numbers(t[1], 3) && are_numbers(t[2], 3));
    tag_then(s, i, point_open(), vec3_then(t[0], r1));
    let a = i + 2;
    vec3_is_read(s, a, t[0], r1);
    let b = a + vec3_len(t[0]);
    tag_then(s, b, point_next(), vec3_then(t[1], r2));
    let c = b + 5;
    vec3_is_read(s, c, t[1], r2);
    let d = c + vec3_len(t[1]);
    tag_then(s, d, point_next(), vec3_then(t[2], r3));
    let f = d + 5;
    vec3_is_read(s, f, t[2], r3);
    let g = f + vec3_len(t[2]);
    tag_then(s, g, point_close(), rest);
    assert(seq![t[0], t[1], t[2]] =~= t);
}

/// An axis is read back.
proof fn axis_is_read(
    s: Seq<char>,
    i: int,
    direction: Seq<Seq<char>>,
    offset: Seq<char>,
    rest: Seq<char>,
)
    requires
        has_at(s, i, axis_then(direction, offset, rest)),
        are_numbers(direction, 3),
        is_number(offset),
    ensures
        axis_at(s, i) == Ok::<(int, (Seq<Seq<char>>, Seq<char>)), ParseError>(
            (i + axis_len(direction, offset), (direction, offset)),
        ),
        has_at(s, i + axis_len(direction, offset), rest),
{
    reveal(axis_then);
    let r1 = then(' ', offset + (axis_close() + rest));
    tag_then(s, i, axis_open(), vec3_then(direction, r1));
    vec3_is_read(s, i + 2, direction, r1);
    let b = i + 2 + vec3_len(direction);
    has_at_then(s, b, ' ', offset + (axis_close() + rest));
    number_then(s, b + 1, offset, axis_close() + rest);
    tag_then(s, b + 1 + offset.len(), axis_close(), rest);
}

/// A name is read back where a blank character follows it.
proof fn name_then(s: Seq<char>, i: int, t: Seq<char>, rest: Seq<char>)
    requires
        has_at(s, i, t + rest),
        is_name(t),
        rest.len() > 0,
        is_blank(rest[0]),
    ensures
        text_at(s, i) == Ok::<(int, Seq<char>), ParseError>((i + t.len(), t)),
        has_at(s, i + t.len(), rest),
{
    run_then(s, i, t, rest, Class::Name);
}

/// How long a face is, written.
spec fn face_len(f: FaceView) -> nat {
    triangle_len(f.triangle) + f.texture_name.len() + axis_len(f.axis_u, f.offset[0]) + axis_len(
        f.axis_v,
        f.offset[1],
    ) + vec3_len(seq![f.rotation, f.scale[0], f.scale[1]]) + 4
}

/// The length of the text of a face, and its first character.
proof fn face_len_is(f: FaceView, rest: Seq<char>)
    ensures
        face_then(f, rest).len() == face_len(f) + rest.len(),
        face_then(f, rest)[0] == '(',
{
    reveal(face_then);
    let last = seq![f.rotation, f.scale[0], f.scale[1]];
    let r5 = then(' ', vec3_then(last, rest));
    let r4 = then(' ', axis_then(f.axis_v, f.offset[1], r5));
    let r3 = then(' ', axis_then(f.axis_u, f.offset[0], r4));
    let r2 = then(' ', f.texture_name + r3);
    vec3_len_is(last, rest);
    axis_len_is(f.axis_v, f.offset[1], r5);
    axis_len_is(f.axis_u, f.offset[0], r4);
    triangle_len_is(f.triangle, r2);
}

/// A face is read back where something follows it that is not written as
/// numbers are.
proof fn face_is_read(s: Seq<char>, i: int, f: FaceView, rest: Seq<char>)
    requires
        has_at(s, i, face_then(f, rest)),
        f.wf(),
        rest.len() > 0,
        !member(Class::Numeral, rest[0]),
    ensures
        face_at(s, i) == Ok::<(int, FaceView), ParseError>((i + face_len(f), f)),
        has_at(s, i + face_len(f), rest),
{
    reveal(face_at);
    reveal(face_then);
    let last = seq![f.rotation, f.scale[0], f.scale[1]];
    let r5 = then(' ', vec3_then(last, rest));
    let r4 = then(' ', axis_then(f.axis_v, f.offset[1], r5));
    let r3 = then(' ', axis_then(f.axis_u, f.offset[0], r4));
    let r2 = then(' ', f.texture_name + r3);
    triangle_is_read(s, i, f.triangle, r2);
    let a = i + triangle_len(f.triangle);
    has_at_then(s, a, ' ', f.texture_name + r3);
    name_then(s, a + 1, f.texture_name, r3);
    let c = a + 1 + f.texture_name.len();
    has_at_then(s, c, ' ', axis_then(f.axis_u, f.offset[0], r4));
    axis_is_read(s, c + 1, f.axis_u, f.offset[0], r4);
    let g = c + 1 + axis_len(f.axis_u, f.offset[0]);
    has_at_then(s, g, ' ', axis_then(f.axis_v, f.offset[1], r5));
    axis_is_read(s, g + 1, f.axis_v, f.offset[1], r5);
    let h = g + 1 + axis_len(f.axis_v, f.offset[1]);
    has_at_then(s, h, ' ', vec3_then(last, rest));
    assert(are_numbers(last, 3));
    vec3_is_read(s, h + 1, last, rest);
    assert(seq![f.offset[0], f.offset[1]] =~= f.offset);
    assert(seq![last[1], last[2]] =~= f.scale);
}

/// Where a token begins, nothing is ignored: at a character that is not
/// blank and is no slash.
proof fn token_stays(s: Seq<char>, i: int)
    requires
        0 <= i < s.len(),
        !is_blank(s[i]),
        s[i] != '/',
    ensures
        token_at(s, i) == i,
{
}

/// At the end of the input nothing is ignored.
proof fn token_stays_at_end(s: Seq<char>)
    ensures
        token_at(s, s.len() as int) == s.len(),
{
}

/// One line feed before a token, or before the end of the input, is ignored.
proof fn token_after_line_feed(s: Seq<char>, i: int)
    requires
        0 <= i < s.len(),
        s[i] == '\n',
        i + 1 == s.len() || (!is_blank(s[i + 1]) && s[i + 1] != '/'),
    ensures
        token_at(s, i) == i + 1,
{
    assert(comment_at(s, i) is Err);
    assert(run_end(s, i + 1, Class::Blank) == i + 1);
    assert(run_end(s, i, Class::Blank) == i + 1);
    assert(comment_at(s, i + 1) is Err);
    assert(ignored_at(s, i + 1).0 == i + 1);
}

/// No face begins with a character that is no round bracket.
proof fn no_face_without_bracket(s: Seq<char>, i: int)
    requires
        0 <= i <= s.len(),
        i < s.len() ==> s[i] != '(',
    ensures
        face_at(s, i) is Err,
{
    reveal(face_at);
    assert(point_open()[0] == '(');
    assert(char_at(s, i, '(') is Err);
    assert(tag_at(s, i, point_open()) is Err);
}

/// How long the faces are, written, each with its line feed.
spec fn faces_len(faces: Seq<FaceView>) -> nat
    decreases faces.len(),
{
    if faces.len() == 0 {
        0
    } else {
        face_len(faces[0]) + 1 + faces_len(faces.skip(1))
    }
}

/// The length of the text of the faces.
proof fn faces_len_is(faces: Seq<FaceView>, rest: Seq<char>)
    ensures
        faces_then(faces, rest).len() == faces_len(faces) + rest.len(),
    decreases faces.len(),
{
    if faces.len() > 0 {
        faces_len_is(faces.skip(1), rest);
        face_len_is(faces[0], then('\n', faces_then(faces.skip(1), rest)));
    }
}

/// Every face of the rest of a list is well formed, where every face of
/// the list is.
proof fn rest_of_faces(faces: Seq<FaceView>)
    requires
        faces.len() > 0,
        forall|j: int| 0 <= j < faces.len() ==> (#[trigger] faces[j]).wf(),
    ensures
        faces[0].wf(),
        forall|j: int| 0 <= j < faces.skip(1).len() ==> (#[trigger] faces.skip(1)[j]).wf(),
{
    assert forall|j: int| 0 <= j < faces.skip(1).len() implies (#[trigger] faces.skip(1)[j]).wf() by {
        assert(faces.skip(1)[j] == faces[j + 1]);
    }
}

/// The faces of a brush are read back, up to the bracket that closes it:
/// from where they begin, and from the line feed before them.
proof fn faces_are_read(s: Seq<char>, i: int, faces: Seq<FaceView>, rest: Seq<char>)
    requires
        has_at(s, i, faces_then(faces, then('}', rest))),
        forall|j: int| 0 <= j < faces.len() ==> (#[trigger] faces[j]).wf(),
    ensures
        faces_at(s, i) == (i + faces_len(faces), faces),
        has_at(s, i + faces_len(faces), then('}', rest)),
        0 <= i < s.len(),
        s[i] == '}' || s[i] == '(',
        faces.len() > 0 ==> face_at(s, i) is Ok,
        i > 0 && s[i - 1] == '\n' && faces.len() > 0 ==> faces_at(s, i - 1) == (
            i + faces_len(faces),
            faces,
        ),
    decreases faces.len(),
{
    if faces.len() == 0 {
        has_at_then(s, i, '}', rest);
        token_stays(s, i);
        no_face_without_bracket(s, i);
        assert(faces =~= Seq::empty());
    } else {
        let f = faces[0];
        let tail = faces.skip(1);
        let after = faces_then(tail, then('}', rest));
        rest_of_faces(faces);
        face_len_is(f, then('\n', after));
        face_is_read(s, i, f, then('\n', after));
        assert(s[i] == '(') by {
            assert(s.subrange(i, i + face_then(f, then('\n', after)).len())[0] == s[i]);
        }
        token_stays(s, i);
        let end = i + face_len(f);
        has_at_then(s, end, '\n', after);
        faces_are_read(s, end + 1, tail, rest);
        token_after_line_feed(s, end);
        assert(seq![f] + tail =~= faces);
        if i > 0 && s[i - 1] == '\n' {
            token_after_line_feed(s, i - 1);
        }
    }
}

/// How long a brush is, written.
spec fn brush_len(brush: Seq<FaceView>) -> nat {
    faces_len(brush) + 3
}

/// The length of the text of a brush, and its first character.
proof fn brush_len_is(brush: Seq<FaceView>, rest: Seq<char>)
    ensures
        brush_then(brush, rest).len() == brush_len(brush) + rest.len(),
        brush_then(brush, rest)[0] == '{',
{
    reveal(brush_then);
    faces_len_is(brush, then('}', rest));
}

/// A brush is read back.
proof fn brush_is_read(s: Seq<char>, i: int, brush: Seq<FaceView>, rest: Seq<char>)
    requires
        has_at(s, i, brush_then(brush, rest)),
        brush_wf(brush),
    ensures
        brush_at(s, i) == Ok::<(int, Seq<FaceView>), ParseError>((i + brush_len(brush), brush)),
        has_at(s, i + brush_len(brush), rest),
        s[i] == '{',
{
    reveal(brush_then);
    let inner = faces_then(brush, then('}', rest));
    has_at_then(s, i, '{', then('\n', inner));
    has_at_then(s, i + 1, '\n', inner);
    faces_are_read(s, i + 2, brush, rest);
    token_after_line_feed(s, i + 1);
    has_at_then(s, i + 2 + faces_len(brush), '}', rest);
}

/// No brush begins with a character that is no curly bracket.
proof fn no_brush_without_bracket(s: Seq<char>, i: int)
    requires
        0 <= i <= s.len(),
        i < s.len() ==> s[i] != '{',
    ensures
        brush_at(s, i) is Err,
{
    assert(char_at(s, i, '{') is Err);
}

/// A quoted text is read back.
proof fn quoted_is_read(s: Seq<char>, i: int, t: Seq<char>, rest: Seq<char>)
    requires
        has_at(s, i, quoted_then(t, rest)),
        is_quotable(t),
    ensures
        string_at(s, i) == Ok::<(int, Seq<char>), ParseError>((i + t.len() + 2, t)),
        has_at(s, i + t.len() + 2, rest),
        s[i] == '"',
{
    reveal(quoted_then);
    has_at_then(s, i, '"', t + then('"', rest));
    run_then(s, i + 1, t, then('"', rest), Class::Quoted);
    has_at_then(s, i + 1 + t.len(), '"', rest);
}

/// How long a property is, written.
spec fn property_len(entry: (Seq<char>, Seq<char>)) -> nat {
    entry.0.len() + entry.1.len() + 5
}

/// The length of the text of a property.
proof fn property_len_is(entry: (Seq<char>, Seq<char>), rest: Seq<char>)
    ensures
        property_then(entry, rest).len() == property_len(entry) + rest.len(),
{
    reveal(property_then);
    reveal(quoted_then);
}

/// A property is read back.
proof fn property_is_read(s: Seq<char>, i: int, entry: (Seq<char>, Seq<char>), rest: Seq<char>)
    requires
        has_at(s, i, property_then(entry, rest)),
        is_quotable(entry.0),
        is_quotable(entry.1),
    ensures
        property_at(s, i) == Ok::<(int, (Seq<char>, Seq<char>)), ParseError>(
            (i + property_len(entry), entry),
        ),
        has_at(s, i + property_len(entry), rest),
        s[i] == '"',
{
    reveal(property_then);
    quoted_is_read(s, i, entry.0, then(' ', quoted_then(entry.1, rest)));
    let a = i + entry.0.len() + 2;
    has_at_then(s, a, ' ', quoted_then(entry.1, rest));
    quoted_is_read(s, a + 1, entry.1, rest);
}

/// No property begins with a character that is no quote.
proof fn no_property_without_quote(s: Seq<char>, i: int)
    requires
        0 <= i <= s.len(),
        i < s.len() ==> s[i] != '"',
    ensures
        property_at(s, i) is Err,
{
    assert(char_at(s, i, '"') is Err);
}

/// How long the properties are, written, each with its line feed.
spec fn properties_len(entries: Seq<(Seq<char>, Seq<char>)>) -> nat
    decreases entries.len(),
{
    if entries.len() == 0 {
        0
    } else {
        property_len(entries[0]) + 1 + properties_len(entries.skip(1))
    }
}

/// The length of the text of the properties.
proof fn properties_len_is(entries: Seq<(Seq<char>, Seq<char>)>, rest: Seq<char>)
    ensures
        properties_then(entries, rest).len() == properties_len(entries) + rest.len(),
    decreases entries.len(),
{
    if entries.len() > 0 {
        properties_len_is(entries.skip(1), rest);
        property_len_is(entries[0], then('\n', properties_then(entries.skip(1), rest)));
    }
}

/// Every entry of the rest of a list can stand between quotes, where every
/// entry of the list can.
proof fn rest_of_entries(entries: Seq<(Seq<char>, Seq<char>)>)
    requires
        entries.len() > 0,
        are_quotable(entries),
    ensures
        is_quotable(entries[0].0),
        is_quotable(entries[0].1),
        are_quotable(entries.skip(1)),
{
    assert forall|j: int| 0 <= j < entries.skip(1).len() implies is_quotable(
        (#[trigger] entries.skip(1)[j]).0,
    ) && is_quotable(entries.skip(1)[j].1) by {
        assert(entries.skip(1)[j] == entries[j + 1]);
    }
}

/// The properties of an entity are read back, where a curly bracket
/// follows them: from where they begin, and from the line feed before them.
proof fn properties_are_read(
    s: Seq<char>,
    i: int,
    entries: Seq<(Seq<char>, Seq<char>)>,
    rest: Seq<char>,
)
    requires
        has_at(s, i, properties_then(entries, rest)),
        are_quotable(entries),
        rest.len() > 0,
        rest[0] == '{' || rest[0] == '}',
    ensures
        properties_at(s, i) == (i + properties_len(entries), entries),
        has_at(s, i + properties_len(entries), rest),
        0 <= i < s.len(),
        s[i] == '"' || s[i] == '{' || s[i] == '}',
        i > 0 && s[i - 1] == '\n' ==> properties_at(s, i - 1) == (if entries.len() == 0 {
            (i - 1, entries)
        } else {
            (i + properties_len(entries), entries)
        }),
    decreases entries.len(),
{
    if entries.len() == 0 {
        assert(Seq::<char>::empty() + rest =~= rest);
        has_at_parts(s, i, Seq::empty(), rest);
        token_stays(s, i);
        no_property_without_quote(s, i);
        assert(entries =~= Seq::empty());
        if i > 0 && s[i - 1] == '\n' {
            token_after_line_feed(s, i - 1);
        }
    } else {
        let e = entries[0];
        let tail = entries.skip(1);
        let after = properties_then(tail, rest);
        rest_of_entries(entries);
        property_is_read(s, i, e, then('\n', after));
        token_stays(s, i);
        let end = i + property_len(e);
        has_at_then(s, end, '\n', after);
        properties_are_read(s, end + 1, tail, rest);
        token_after_line_feed(s, end);
        assert(seq![e] + tail =~= entries);
        if i > 0 && s[i - 1] == '\n' {
            token_after_line_feed(s, i - 1);
        }
    }
}

/// How long the brushes are, written, each with its line feed.
spec fn brushes_len(brushes: Seq<Seq<FaceView>>) -> nat
    decreases brushes.len(),
{
    if brushes.len() == 0 {
        0
    } else {
        brush_len(brushes[0]) + 1 + brushes_len(brushes.skip(1))
    }
}

/// The length of the text of the brushes, and its first character.
proof fn brushes_len_is(brushes: Seq<Seq<FaceView>>, rest: Seq<char>)
    ensures
        brushes_then(brushes, rest).len() == brushes_len(brushes) + rest.len(),
        brushes.len() > 0 ==> brushes_then(brushes, rest)[0] == '{',
    decreases brushes.len(),
{
    if brushes.len() > 0 {
        brushes_len_is(brushes.skip(1), rest);
        brush_len_is(brushes[0], then('\n', brushes_then(brushes.skip(1), rest)));
    }
}

/// Every brush of the rest of a list is well formed, where every brush of
/// the list is.
proof fn rest_of_brushes(brushes: Seq<Seq<FaceView>>)
    requires
        brushes.len() > 0,
        forall|j: int| 0 <= j < brushes.len() ==> brush_wf(#[trigger] brushes[j]),
    ensures
        brush_wf(brushes[0]),
        forall|j: int| 0 <= j < brushes.skip(1).len() ==> brush_wf(#[trigger] brushes.skip(1)[j]),
{
    assert forall|j: int| 0 <= j < brushes.skip(1).len() implies brush_wf(
        #[trigger] brushes.skip(1)[j],
    ) by {
        assert(brushes.skip(1)[j] == brushes[j + 1]);
    }
}

/// The brushes of an entity are read back, up to the bracket that closes
/// it: from where they begin, and from the line feed before them.
proof fn brushes_are_read(
    s: Seq<char>,
    i: int,
    brushes: Seq<Seq<FaceView>>,
    rest: Seq<char>,
)
    requires
        has_at(s, i, brushes_then(brushes, then('}', rest))),
        forall|j: int| 0 <= j < brushes.len() ==> brush_wf(#[trigger] brushes[j]),
    ensures
        brushes_at(s, i) == (i + brushes_len(brushes), brushes),
        has_at(s, i + brushes_len(brushes), then('}', rest)),
        0 <= i < s.len(),
        s[i] == '{' || s[i] == '}',
        i > 0 && s[i - 1] == '\n' ==> brushes_at(s, i - 1) == (if brushes.len() == 0 {
            (i - 1, brushes)
        } else {
            (i + brushes_len(brushes), brushes)
        }),
    decreases brushes.len(),
{
    if brushes.len() == 0 {
        has_at_then(s, i, '}', rest);
        token_stays(s, i);
        no_brush_without_bracket(s, i);
        assert(brushes =~= Seq::empty());
        if i > 0 && s[i - 1] == '\n' {
            token_after_line_feed(s, i - 1);
        }
    } else {
        let b = brushes[0];
        let tail = brushes.skip(1);
        let after = brushes_then(tail, then('}', rest));
        rest_of_brushes(brushes);
        brush_is_read(s, i, b, then('\n', after));
        token_stays(s, i);
        let end = i + brush_len(b);
        has_at_then(s, end, '\n', after);
        brushes_are_read(s, end + 1, tail, rest);
        token_after_line_feed(s, end);
        assert(seq![b] + tail =~= brushes);
        if i > 0 && s[i - 1] == '\n' {
            token_after_line_feed(s, i - 1);
        }
    }
}

/// How long an entity is, written.
spec fn entity_len(entity: Draft) -> nat {
    properties_len(entity.entries) + brushes_len(entity.brushes) + 3
}

/// The length of the text of an entity.
proof fn entity_len_is(entity: Draft, rest: Seq<char>)
    ensures
        entity_then(entity, rest).len() == entity_len(entity) + rest.len(),
{
    reveal(entity_then);
    brushes_len_is(entity.brushes, then('}', rest));
    properties_len_is(entity.entries, brushes_then(entity.brushes, then('}', rest)));
}

/// An entity is read back.
proof fn entity_is_read(s: Seq<char>, i: int, entity: Draft, rest: Seq<char>)
    requires
        has_at(s, i, entity_then(entity, rest)),
        entity.wf(),
    ensures
        entity_at(s, i) == Ok::<(int, EntityView), ParseError>(
            (i + entity_len(entity), entity.entity()),
        ),
        has_at(s, i + entity_len(entity), rest),
        s[i] == '{',
{
    reveal(entity_then);
    let close = then('}', rest);
    let after = brushes_then(entity.brushes, close);
    let inner = properties_then(entity.entries, after);
    has_at_then(s, i, '{', then('\n', inner));
    has_at_then(s, i + 1, '\n', inner);
    brushes_len_is(entity.brushes, close);
    properties_are_read(s, i + 2, entity.entries, after);
    let b = i + 2 + properties_len(entity.entries);
    brushes_are_read(s, b, entity.brushes, rest);
    let c = b + brushes_len(entity.brushes);
    has_at_then(s, c, '}', rest);
    token_stays(s, c);
    if entity.entries.len() == 0 && entity.brushes.len() == 0 {
        token_after_line_feed(s, i + 1);
    }
}

/// How long a map is, written.
spec fn map_len(entities: Seq<Draft>) -> nat
    decreases entities.len(),
{
    if entities.len() == 0 {
        0
    } else {
        entity_len(entities[0]) + 1 + map_len(entities.skip(1))
    }
}

/// The length of the text of a map.
proof fn map_len_is(entities: Seq<Draft>)
    ensures
        map_text(entities).len() == map_len(entities),
    decreases entities.len(),
{
    if entities.len() > 0 {
        map_len_is(entities.skip(1));
        entity_len_is(entities[0], then('\n', map_text(entities.skip(1))));
    }
}

/// The entities of a map are read back from its text, which stands at `i`
/// and ends the input.
proof fn entities_are_read(s: Seq<char>, i: int, entities: Seq<Draft>)
    requires
        has_at(s, i, map_text(entities)),
        i + map_text(entities).len() == s.len(),
        drafts_wf(entities),
    ensures
        entities_at(s, i) == entities_of(entities),
        i < s.len() ==> s[i] == '{',
        i > 0 && s[i - 1] == '\n' ==> entities_at(s, i - 1) == entities_of(entities),
    decreases entities.len(),
{
    if entities.len() == 0 {
        token_stays_at_end(s);
        assert(char_at(s, i, '{') is Err);
        assert(entities_of(entities) =~= Seq::empty());
        if i > 0 && s[i - 1] == '\n' {
            token_after_line_feed(s, i - 1);
        }
    } else {
        let e = entities[0];
        let tail = entities.skip(1);
        let after = map_text(tail);
        assert(e.wf());
        entity_len_is(e, then('\n', after));
        entity_is_read(s, i, e, then('\n', after));
        token_stays(s, i);
        let end = i + entity_len(e);
        has_at_then(s, end, '\n', after);
        assert forall|j: int| 0 <= j < tail.len() implies (#[trigger] tail[j]).wf() by {
            assert(tail[j] == entities[j + 1]);
        }
        entities_are_read(s, end + 1, tail);
        assert(seq![e.entity()] + entities_of(tail) =~= entities_of(entities));
        if i > 0 && s[i - 1] == '\n' {
            token_after_line_feed(s, i - 1);
        }
    }
}

/// What is written of a map is read back as that map.
pub proof fn reading_what_was_written(entities: Seq<Draft>)
    requires
        drafts_wf(entities),
    ensures
        entities_at(map_text(entities), 0) == entities_of(entities),
{
    let s = map_text(entities);
    assert(s.subrange(0, s.len() as int) =~= s);
    entities_are_read(s, 0, entities);
}

/// The text of three numbers is the same text whatever follows it.
proof fn vec3_then_is_text(v: Seq<Seq<char>>, rest: Seq<char>)
    ensures
        vec3_then(v, rest) == vec3_then(v, Seq::empty()) + rest,
{
    reveal(vec3_then);
    assert(vec3_then(v, rest) =~= vec3_then(v, Seq::empty()) + rest);
}

/// The text of a triangle is the same text whatever follows it.
proof fn triangle_then_is_text(t: Seq<Seq<Seq<char>>>, rest: Seq<char>)
    ensures
        triangle_then(t, rest) == triangle_then(t, Seq::empty()) + rest,
{
    reveal(triangle_then);
    let e = Seq::<char>::empty();
    vec3_then_is_text(t[2], point_close() + rest);
    vec3_then_is_text(t[2], point_close() + e);
    vec3_then_is_text(t[1], point_next() + vec3_then(t[2], point_close() + rest));
    vec3_then_is_text(t[1], point_next() + vec3_then(t[2], point_close() + e));
    vec3_then_is_text(
        t[0],
        point_next() + vec3_then(t[1], point_next() + vec3_then(t[2], point_close() + rest)),
    );
    vec3_then_is_text(
        t[0],
        point_next() + vec3_then(t[1], point_next() + vec3_then(t[2], point_close() + e)),
    );
    assert(triangle_then(t, rest) =~= triangle_then(t, e) + rest);
}

/// The text of an axis is the same text whatever follows it.
proof fn axis_then_is_text(direction: Seq<Seq<char>>, offset: Seq<char>, rest: Seq<char>)
    ensures
        axis_then(direction, offset, rest) == axis_then(direction, offset, Seq::empty()) + rest,
{
    reveal(axis_then);
    let e = Seq::<char>::empty();
    vec3_then_is_text(direction, then(' ', offset + (axis_close() + rest)));
    vec3_then_is_text(direction, then(' ', offset + (axis_close() + e)));
    assert(axis_then(direction, offset, rest) =~= axis_then(direction, offset, e) + rest);
}

/// The text of a face is the same text whatever follows it.
proof fn face_then_is_text(f: FaceView, rest: Seq<char>)
    ensures
        face_then(f, rest) == face_then(f, Seq::empty()) + rest,
{
    reveal(face_then);
    let e = Seq::<char>::empty();
    let last = seq![f.rotation, f.scale[0], f.scale[1]];
    let r5 = then(' ', vec3_then(last, rest));
    let r4 = then(' ', axis_then(f.axis_v, f.offset[1], r5));
    let r3 = then(' ', axis_then(f.axis_u, f.offset[0], r4));
    let r2 = then(' ', f.texture_name + r3);
    let e5 = then(' ', vec3_then(last, e));
    let e4 = then(' ', axis_then(f.axis_v, f.offset[1], e5));
    let e3 = then(' ', axis_then(f.axis_u, f.offset[0], e4));
    let e2 = then(' ', f.texture_name + e3);
    vec3_then_is_text(last, rest);
    assert(r5 =~= e5 + rest);
    axis_then_is_text(f.axis_v, f.offset[1], r5);
    axis_then_is_text(f.axis_v, f.offset[1], e5);
    assert(r4 =~= e4 + rest);
    axis_then_is_text(f.axis_u, f.offset[0], r4);
    axis_then_is_text(f.axis_u, f.offset[0], e4);
    assert(r3 =~= e3 + rest);
    assert(r2 =~= e2 + rest);
    triangle_then_is_text(f.triangle, r2);
    triangle_then_is_text(f.triangle, e2);
    assert(face_then(f, rest) =~= face_then(f, e) + rest);
}

/// The text of a property is the same text whatever follows it.
proof fn property_then_is_text(entry: (Seq<char>, Seq<char>), rest: Seq<char>)
    ensures
        property_then(entry, rest) == property_then(entry, Seq::empty()) + rest,
{
    reveal(property_then);
    reveal(quoted_then);
    assert(property_then(entry, rest) =~= property_then(entry, Seq::empty()) + rest);
}

/// Adds the characters of `chars` to the text.
fn push_all(out: &mut String, chars: &[char])
    ensures
        final(out)@ == old(out)@ + chars@,
{
    let mut k: usize = 0;
    while k < chars.len()
        invariant
            k <= chars@.len(),
            out@ == old(out)@ + chars@.take(k as int),
        decreases chars@.len() - k,
    {
        push_char(out, chars[k]);
        assert(chars@.take(k + 1) =~= chars@.take(k as int).push(chars@[k as int]));
        k += 1;
    }
    assert(chars@.take(chars@.len() as int) =~= chars@);
}

/// Adds a number to the text.
fn write_number(out: &mut String, number: &Number)
    ensures
        final(out)@ == old(out)@ + number@,
{
    out.append(number.text.as_str());
}

/// Adds three numbers to the text.
fn write_vec3(out: &mut String, x: &Number, y: &Number, z: &Number)
    ensures
        final(out)@ == old(out)@ + vec3_then(seq![x@, y@, z@], Seq::empty()),
{
    reveal(vec3_then);
    write_number(out, x);
    push_char(out, ' ');
    write_number(out, y);
    push_char(out, ' ');
    write_number(out, z);
    assert(out@ =~= old(out)@ + vec3_then(seq![x@, y@, z@], Seq::empty()));
}

/// Adds the three points of a face to the text.
fn write_triangle(out: &mut String, t: &[[Number; 3]; 3])
    ensures
        final(out)@ == old(out)@ + triangle_then(
            seq![triple(t[0]), triple(t[1]), triple(t[2])],
            Seq::empty(),
        ),
{
    reveal(triangle_then);
    let ghost e = Seq::<char>::empty();
    let ghost p = seq![triple(t[0]), triple(t[1]), triple(t[2])];
    let open = ['(', ' '];
    let next = [' ', ')', ' ', '(', ' '];
    let close = [' ', ')'];
    assert(open@ =~= point_open());
    assert(next@ =~= point_next());
    assert(close@ =~= point_close());
    push_all(out, &open);
    write_vec3(out, &t[0][0], &t[0][1], &t[0][2]);
    push_all(out, &next);
    write_vec3(out, &t[1][0], &t[1][1], &t[1][2]);
    push_all(out, &next);
    write_vec3(out, &t[2][0], &t[2][1], &t[2][2]);
    push_all(out, &close);
    proof {
        assert(seq![t[0][0]@, t[0][1]@, t[0][2]@] =~= p[0]);
        assert(seq![t[1][0]@, t[1][1]@, t[1][2]@] =~= p[1]);
        assert(seq![t[2][0]@, t[2][1]@, t[2][2]@] =~= p[2]);
        let r3 = point_close() + e;
        let r2 = point_next() + vec3_then(p[2], r3);
        let r1 = point_next() + vec3_then(p[1], r2);
        vec3_then_is_text(p[2], r3);
        vec3_then_is_text(p[1], r2);
        vec3_then_is_text(p[0], r1);
        assert(out@ =~= old(out)@ + triangle_then(p, e));
    }
}

/// Adds a texture axis to the text.
fn write_axis(out: &mut String, direction: &[Number; 3], offset: &Number)
    ensures
        final(out)@ == old(out)@ + axis_then(triple(*direction), offset@, Seq::empty()),
{
    reveal(axis_then);
    let ghost e = Seq::<char>::empty();
    let open = ['[', ' '];
    let close = [' ', ']'];
    assert(open@ =~= axis_open());
    assert(close@ =~= axis_close());
    push_all(out, &open);
    write_vec3(out, &direction[0], &direction[1], &direction[2]);
    push_char(out, ' ');
    write_number(out, offset);
    push_all(out, &close);
    proof {
        vec3_then_is_text(triple(*direction), then(' ', offset@ + (axis_close() + e)));
        assert(seq![direction[0]@, direction[1]@, direction[2]@] =~= triple(*direction));
        assert(out@ =~= old(out)@ + axis_then(triple(*direction), offset@, e));
    }
}

/// Adds a face to the text.
fn write_face(out: &mut String, face: &Face)
    ensures
        final(out)@ == old(out)@ + face_then(face@, Seq::empty()),
{
    reveal(face_then);
    let ghost e = Seq::<char>::empty();
    let ghost f = face@;
    write_triangle(out, &face.triangle);
    push_char(out, ' ');
    out.append(face.texture_name.as_str());
    push_char(out, ' ');
    write_axis(out, &face.axis_u, &face.offset[0]);
    push_char(out, ' ');
    write_axis(out, &face.axis_v, &face.offset[1]);
    push_char(out, ' ');
    write_vec3(out, &face.rotation, &face.scale[0], &face.scale[1]);
    proof {
        let last = seq![f.rotation, f.scale[0], f.scale[1]];
        let e5 = then(' ', vec3_then(last, e));
        let e4 = then(' ', axis_then(f.axis_v, f.offset[1], e5));
        let e3 = then(' ', axis_then(f.axis_u, f.offset[0], e4));
        let e2 = then(' ', f.texture_name + e3);
        axis_then_is_text(f.axis_v, f.offset[1], e5);
        axis_then_is_text(f.axis_u, f.offset[0], e4);
        triangle_then_is_text(f.triangle, e2);
        assert(out@ =~= old(out)@ + face_then(f, e));
    }
}

/// Adds a brush to the text.
fn write_brush(out: &mut String, brush: &Brush)
    ensures
        final(out)@ == old(out)@ + brush_then(brush@, Seq::empty()),
{
    reveal(brush_then);
    let ghost e = Seq::<char>::empty();
    let ghost close = then('}', e);
    push_char(out, '{');
    push_char(out, '\n');
    let ghost begun = out@;
    let mut k: usize = 0;
    assert(brush@.skip(0) =~= brush@);
    while k < brush.faces.len()
        invariant
            k <= brush.faces@.len(),
            close == then('}', Seq::<char>::empty()),
            out@ + faces_then(brush@.skip(k as int), close) == begun + faces_then(brush@, close),
        decreases brush.faces@.len() - k,
    {
        let ghost before = out@;
        write_face(out, &brush.faces[k]);
        push_char(out, '\n');
        proof {
            let rest = brush@.skip(k as int);
            let after = faces_then(brush@.skip(k + 1), close);
            assert(rest[0] == brush.faces@[k as int]@);
            assert(rest.skip(1) =~= brush@.skip(k + 1));
            face_then_is_text(rest[0], then('\n', after));
            assert(out@ + after =~= before + faces_then(rest, close));
        }
        k += 1;
    }
    let ghost filled = out@;
    push_char(out, '}');
    proof {
        assert(brush@.skip(brush.faces@.len() as int) =~= Seq::<FaceView>::empty());
        assert(close =~= seq!['}']);
        assert(out@ =~= filled + close);
        assert(out@ == begun + faces_then(brush@, close));
        assert(begun =~= old(out)@ + seq!['{', '\n']);
        assert(out@ =~= old(out)@ + brush_then(brush@, e));
    }
}

/// The text of a brush is the same text whatever follows it.
proof fn brush_then_is_text(brush: Seq<FaceView>, rest: Seq<char>)
    ensures
        brush_then(brush, rest) == brush_then(brush, Seq::empty()) + rest,
{
    reveal(brush_then);
    faces_then_is_text(brush, then('}', rest), then('}', Seq::empty()), rest);
    assert(brush_then(brush, rest) =~= brush_then(brush, Seq::empty()) + rest);
}

/// The text of faces goes on with what follows it.
proof fn faces_then_is_text(
    faces: Seq<FaceView>,
    long: Seq<char>,
    short: Seq<char>,
    rest: Seq<char>,
)
    requires
        long == short + rest,
    ensures
        faces_then(faces, long) == faces_then(faces, short) + rest,
    decreases faces.len(),
{
    if faces.len() > 0 {
        faces_then_is_text(faces.skip(1), long, short, rest);
        face_then_is_text(faces[0], then('\n', faces_then(faces.skip(1), long)));
        face_then_is_text(faces[0], then('\n', faces_then(faces.skip(1), short)));
        assert(faces_then(faces, long) =~= faces_then(faces, short) + rest);
    }
}

/// Adds an entity to the text.
fn write_entity(out: &mut String, entity: &Entity)
    ensures
        final(out)@ == old(out)@ + entity_then(entity.draft(), Seq::empty()),
{
    reveal(entity_then);
    let ghost e = Seq::<char>::empty();
    let ghost close = then('}', e);
    let ghost draft = entity.draft();
    let ghost tail = brushes_then(draft.brushes, close);
    push_char(out, '{');
    push_char(out, '\n');
    let ghost begun = out@;
    let pairs = entity.properties.pairs();
    let mut k: usize = 0;
    assert(draft.entries.skip(0) =~= draft.entries);
    while k < pairs.len()
        invariant
            k <= pairs@.len(),
            texts(pairs@) == draft.entries,
            out@ + properties_then(draft.entries.skip(k as int), tail) == begun + properties_then(
                draft.entries,
                tail,
            ),
        decreases pairs@.len() - k,
    {
        let ghost before = out@;
        push_char(out, '"');
        out.append(pairs[k].0.as_str());
        push_char(out, '"');
        push_char(out, ' ');
        push_char(out, '"');
        out.append(pairs[k].1.as_str());
        push_char(out, '"');
        push_char(out, '\n');
        proof {
            reveal(property_then);
            reveal(quoted_then);
            let rest = draft.entries.skip(k as int);
            let after = properties_then(draft.entries.skip(k + 1), tail);
            assert(rest[0] == (pairs@[k as int].0@, pairs@[k as int].1@));
            assert(rest.skip(1) =~= draft.entries.skip(k + 1));
            assert(out@ + after =~= before + properties_then(rest, tail));
        }
        k += 1;
    }
    let ghost listed = out@;
    assert(listed + tail == begun + properties_then(draft.entries, tail));
    let mut k: usize = 0;
    assert(draft.brushes.skip(0) =~= draft.brushes);
    while k < entity.brushes.len()
        invariant
            k <= entity.brushes@.len(),
            draft.brushes == entity@.brushes,
            close == then('}', Seq::<char>::empty()),
            out@ + brushes_then(draft.brushes.skip(k as int), close) == listed + brushes_then(
                draft.brushes,
                close,
            ),
        decreases entity.brushes@.len() - k,
    {
        let ghost before = out@;
        write_brush(out, &entity.brushes[k]);
        push_char(out, '\n');
        proof {
            let rest = draft.brushes.skip(k as int);
            let after = brushes_then(draft.brushes.skip(k + 1), close);
            assert(rest[0] == entity.brushes@[k as int]@);
            assert(rest.skip(1) =~= draft.brushes.skip(k + 1));
            brush_then_is_text(rest[0], then('\n', after));
            assert(out@ + after =~= before + brushes_then(rest, close));
        }
        k += 1;
    }
    let ghost filled = out@;
    push_char(out, '}');
    proof {
        assert(draft.brushes.skip(entity.brushes@.len() as int) =~= Seq::<
            Seq<FaceView>,
        >::empty());
        assert(draft.entries.skip(pairs@.len() as int) =~= Seq::<
            (Seq<char>, Seq<char>),
        >::empty());
        assert(close =~= seq!['}']);
        assert(out@ =~= filled + close);
        assert(out@ == listed + tail);
        assert(begun =~= old(out)@ + seq!['{', '\n']);
        assert(out@ =~= old(out)@ + entity_then(draft, e));
    }
}

/// The text of brushes goes on with what follows it.
proof fn brushes_then_is_text(
    brushes: Seq<Seq<FaceView>>,
    long: Seq<char>,
    short: Seq<char>,
    rest: Seq<char>,
)
    requires
        long == short + rest,
    ensures
        brushes_then(brushes, long) == brushes_then(brushes, short) + rest,
    decreases brushes.len(),
{
    if brushes.len() > 0 {
        brushes_then_is_text(brushes.skip(1), long, short, rest);
        brush_then_is_text(brushes[0], then('\n', brushes_then(brushes.skip(1), long)));
        brush_then_is_text(brushes[0], then('\n', brushes_then(brushes.skip(1), short)));
        assert(brushes_then(brushes, long) =~= brushes_then(brushes, short) + rest);
    }
}

/// The text of properties goes on with what follows it.
proof fn properties_then_is_text(
    entries: Seq<(Seq<char>, Seq<char>)>,
    long: Seq<char>,
    short: Seq<char>,
    rest: Seq<char>,
)
    requires
        long == short + rest,
    ensures
        properties_then(entries, long) == properties_then(entries, short) + rest,
    decreases entries.len(),
{
    if entries.len() > 0 {
        properties_then_is_text(entries.skip(1), long, short, rest);
        property_then_is_text(entries[0], then('\n', properties_then(entries.skip(1), long)));
        property_then_is_text(entries[0], then('\n', properties_then(entries.skip(1), short)));
        assert(properties_then(entries, long) =~= properties_then(entries, short) + rest);
    }
}

/// The text of an entity is the same text whatever follows it.
proof fn entity_then_is_text(entity: Draft, rest: Seq<char>)
    ensures
        entity_then(entity, rest) == entity_then(entity, Seq::empty()) + rest,
{
    reveal(entity_then);
    let e = Seq::<char>::empty();
    brushes_then_is_text(entity.brushes, then('}', rest), then('}', e), rest);
    properties_then_is_text(
        entity.entries,
        brushes_then(entity.brushes, then('}', rest)),
        brushes_then(entity.brushes, then('}', e)),
        rest,
    );
    assert(entity_then(entity, rest) =~= entity_then(entity, e) + rest);
}

/// Writes a map: each entity, ended by a line feed. In an entity, after the
/// bracket that opens it, each property on a line of its own, then each
/// brush, and the bracket that closes it. In a brush, between its brackets,
/// each face on a line of its own.
pub fn to_text(map: &MapFile) -> (text: String)
    ensures
        text@ == map_text(map.drafts()),
{
    let mut out = String::new();
    let ghost drafts = map.drafts();
    let mut k: usize = 0;
    assert(drafts.skip(0) =~= drafts);
    while k < map.entities.len()
        invariant
            k <= map.entities@.len(),
            drafts == map.drafts(),
            out@ + map_text(drafts.skip(k as int)) == map_text(drafts),
        decreases map.entities@.len() - k,
    {
        let ghost before = out@;
        write_entity(&mut out, &map.entities[k]);
        push_char(&mut out, '\n');
        proof {
            let rest = drafts.skip(k as int);
            let after = map_text(drafts.skip(k + 1));
            assert(rest[0] == map.entities@[k as int].draft());
            assert(rest.skip(1) =~= drafts.skip(k + 1));
            entity_then_is_text(rest[0], then('\n', after));
            assert(out@ + after =~= before + map_text(rest));
        }
        k += 1;
    }
    assert(out@ + Seq::<char>::empty() =~= out@);
    out
}

/// A map that is written and read again is the same map.
pub proof fn written_map_is_read_back(map: MapFile)
    requires
        map.wf(),
    ensures
        entities_at(map_text(map.drafts()), 0) == map@,
{
    let drafts = map.drafts();
    assert(drafts_wf(drafts));
    reading_what_was_written(drafts);
    assert(entities_of(drafts) =~= map@);
}

} // verus!
