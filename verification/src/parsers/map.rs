//! A map: entities, one after the other.

use crate::parsers::common::{skip_ignored, token_at};
use crate::parsers::entity::{entity, entity_at};
use crate::types::{map_wf, Entity, EntityView, MapFile};
use vstd::prelude::*;

verus! {

/// The entities that follow one another from `i` on, with what is ignored
/// before each. Where the input goes on with something that is no entity,
/// the list ends.
pub open spec fn entities_at(s: Seq<char>, i: int) -> Seq<EntityView>
    decreases s.len() - i,
{
    match entity_at(s, token_at(s, i)) {
        Ok((end, entity)) => {
            if i < end <= s.len() {
                seq![entity] + entities_at(s, end)
            } else {
                Seq::empty()
            }
        },
        Err(_) => Seq::empty(),
    }
}

/// The views of the entities of a list.
pub open spec fn entity_views(entities: Seq<Entity>) -> Seq<EntityView> {
    Seq::new(entities.len(), |j: int| entities[j]@)
}

/// Reads a map: the entities from the beginning of the input, for as long
/// as one follows another.
pub fn map(input: &[char]) -> (map: MapFile)
    ensures
        map@ == entities_at(input@, 0),
        map_wf(map@),
        map.wf(),
{
    let mut entities: Vec<Entity> = Vec::new();
    let mut at: usize = 0;
    loop
        invariant
            at <= input@.len(),
            entities_at(input@, 0) == entity_views(entities@) + entities_at(input@, at as int),
            forall|j: int| 0 <= j < entities@.len() ==> (#[trigger] entities@[j])@.wf(),
            forall|j: int|
                0 <= j < entities@.len() ==> (#[trigger] entities@[j]).properties.wf()
                    && entities@[j].draft().wf(),
        ensures
            entity_views(entities@) == entities_at(input@, 0),
            forall|j: int| 0 <= j < entities@.len() ==> (#[trigger] entities@[j])@.wf(),
            forall|j: int|
                0 <= j < entities@.len() ==> (#[trigger] entities@[j]).properties.wf()
                    && entities@[j].draft().wf(),
        decreases input@.len() - at,
    {
        let ghost before = entity_views(entities@);
        let from = skip_ignored(input, at);
        match entity(input, from) {
            Ok((end, entity)) => {
                proof {
                    let tail = entities_at(input@, end as int);
                    assert(entity_views(entities@.push(entity)) =~= before.push(entity@));
                    assert(before.push(entity@) + tail =~= before + (seq![entity@] + tail));
                }
                entities.push(entity);
                at = end;
            },
            Err(_) => {
                assert(before + Seq::<EntityView>::empty() =~= before);
                break ;
            },
        }
    }
    let map = MapFile { entities };
    assert(map@ =~= entity_views(map.entities@));
    assert forall|j: int| 0 <= j < map@.len() implies (#[trigger] map@[j]).wf() by {
        assert(map.entities@[j]@.wf());
    }
    map
}

} // verus!
