//! An entity: properties and brushes between curly brackets.

use crate::error::ParseError;
use crate::parsers::brush::{brush, brush_at};
use crate::parsers::common::{char_at, expect, skip_ignored, token_at, yields};
use crate::parsers::property::{property, property_at};
use crate::types::{
    are_quotable, brush_wf, mapping, Brush, Entity, EntityView, FaceView, Properties,
};
use vstd::prelude::*;

verus! {

/// The properties that follow one another from `i` on, each with what is
/// ignored before and after it, and the place after the last of them.
pub open spec fn properties_at(s: Seq<char>, i: int) -> (int, Seq<(Seq<char>, Seq<char>)>)
    decreases s.len() - i,
{
    match property_at(s, token_at(s, i)) {
        Ok((end, entry)) => {
            let next = token_at(s, end);
            if i < next <= s.len() {
                let rest = properties_at(s, next);
                (rest.0, seq![entry] + rest.1)
            } else {
                (i, Seq::empty())
            }
        },
        Err(_) => (i, Seq::empty()),
    }
}

/// The brushes that follow one another from `i` on, each with what is
/// ignored before and after it, and the place after the last of them.
pub open spec fn brushes_at(s: Seq<char>, i: int) -> (int, Seq<Seq<FaceView>>)
    decreases s.len() - i,
{
    match brush_at(s, token_at(s, i)) {
        Ok((end, brush)) => {
            let next = token_at(s, end);
            if i < next <= s.len() {
                let rest = brushes_at(s, next);
                (rest.0, seq![brush] + rest.1)
            } else {
                (i, Seq::empty())
            }
        },
        Err(_) => (i, Seq::empty()),
    }
}

/// What `entity` reads at `i`: an opening curly bracket; properties, as
/// many as there are; then brushes, as many as there are; and a closing
/// curly bracket. Blank characters and comments may stand before and after
/// each property and brush, and before the closing bracket. Of two values
/// for one key the entity has the later one.
pub open spec fn entity_at(s: Seq<char>, i: int) -> Result<(int, EntityView), ParseError> {
    match char_at(s, i, '{') {
        Err(e) => Err(e),
        Ok(a) => {
            let (b, entries) = properties_at(s, a);
            let (c, brushes) = brushes_at(s, b);
            match char_at(s, token_at(s, c), '}') {
                Err(e) => Err(e),
                Ok(end) => Ok((end, EntityView { properties: mapping(entries), brushes })),
            }
        },
    }
}

/// The views of the brushes of a list.
pub open spec fn brush_views(brushes: Seq<Brush>) -> Seq<Seq<FaceView>> {
    Seq::new(brushes.len(), |j: int| brushes[j]@)
}

/// Reads the properties that follow one another.
fn properties(input: &[char], i: usize) -> (r: (usize, Properties))
    requires
        i <= input@.len(),
    ensures
        i <= r.0 <= input@.len(),
        r.0 == properties_at(input@, i as int).0,
        r.1@ == mapping(properties_at(input@, i as int).1),
        r.1.wf(),
        are_quotable(r.1.listing()),
{
    let mut properties = Properties::new();
    let ghost mut read: Seq<(Seq<char>, Seq<char>)> = Seq::empty();
    let mut at = i;
    loop
        invariant
            i <= at <= input@.len(),
            properties_at(input@, i as int).0 == properties_at(input@, at as int).0,
            properties_at(input@, i as int).1 == read + properties_at(input@, at as int).1,
            properties@ == mapping(read),
            properties.wf(),
            are_quotable(properties.listing()),
        ensures
            i <= at <= input@.len(),
            at == properties_at(input@, i as int).0,
            properties@ == mapping(properties_at(input@, i as int).1),
            properties.wf(),
            are_quotable(properties.listing()),
        decreases input@.len() - at,
    {
        let from = skip_ignored(input, at);
        match property(input, from) {
            Ok((end, entry)) => {
                let next = skip_ignored(input, end);
                let (key, value) = entry;
                proof {
                    let tail = properties_at(input@, next as int).1;
                    let more = read.push((key@, value@));
                    assert(more + tail =~= read + (seq![(key@, value@)] + tail));
                    assert(more.drop_last() =~= read);
                    read = more;
                }
                properties.insert(key, value);
                at = next;
            },
            Err(_) => {
                assert(read + Seq::<(Seq<char>, Seq<char>)>::empty() =~= read);
                break ;
            },
        }
    }
    (at, properties)
}

/// Reads the brushes that follow one another.
fn brushes(input: &[char], i: usize) -> (r: (usize, Vec<Brush>))
    requires
        i <= input@.len(),
    ensures
        i <= r.0 <= input@.len(),
        r.0 == brushes_at(input@, i as int).0,
        brush_views(r.1@) == brushes_at(input@, i as int).1,
        forall|j: int| 0 <= j < r.1@.len() ==> brush_wf((#[trigger] r.1@[j])@),
{
    let mut brushes: Vec<Brush> = Vec::new();
    let mut at = i;
    loop
        invariant
            i <= at <= input@.len(),
            brushes_at(input@, i as int).0 == brushes_at(input@, at as int).0,
            brushes_at(input@, i as int).1 == brush_views(brushes@) + brushes_at(
                input@,
                at as int,
            ).1,
            forall|j: int| 0 <= j < brushes@.len() ==> brush_wf((#[trigger] brushes@[j])@),
        ensures
            i <= at <= input@.len(),
            at == brushes_at(input@, i as int).0,
            brush_views(brushes@) == brushes_at(input@, i as int).1,
            forall|j: int| 0 <= j < brushes@.len() ==> brush_wf((#[trigger] brushes@[j])@),
        decreases input@.len() - at,
    {
        let ghost before = brush_views(brushes@);
        let from = skip_ignored(input, at);
        match brush(input, from) {
            Ok((end, brush)) => {
                let next = skip_ignored(input, end);
                proof {
                    let tail = brushes_at(input@, next as int).1;
                    assert(brush_views(brushes@.push(brush)) =~= before.push(brush@));
                    assert(before.push(brush@) + tail =~= before + (seq![brush@] + tail));
                }
                brushes.push(brush);
                at = next;
            },
            Err(_) => {
                assert(before + Seq::<Seq<FaceView>>::empty() =~= before);
                break ;
            },
        }
    }
    (at, brushes)
}

/// Reads an entity.
pub fn entity(input: &[char], i: usize) -> (r: Result<(usize, Entity), ParseError>)
    requires
        i <= input@.len(),
    ensures
        yields(r, entity_at(input@, i as int)),
        r matches Ok((end, entity)) ==> i < end <= input@.len() && entity@.wf()
            && entity.properties.wf() && entity.draft().wf(),
{
    let a = expect(input, i, '{')?;
    let (b, properties) = properties(input, a);
    let (c, brushes) = brushes(input, b);
    let d = skip_ignored(input, c);
    let end = expect(input, d, '}')?;
    let entity = Entity { properties, brushes };
    assert(entity@.brushes =~= brush_views(entity.brushes@));
    Ok((end, entity))
}

} // verus!
