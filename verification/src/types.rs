//! What a map file holds: entities, their properties and brushes, and the
//! faces of the brushes.
//!
//! A number is kept as it is written in the file. The library reads its
//! form and never its value.

use vstd::prelude::*;

verus! {

/// `c` is blank: a space, a tab, a carriage return or a line feed.
pub open spec fn is_blank(c: char) -> bool {
    c == ' ' || c == '\t' || c == '\r' || c == '\n'
}

/// `t` can be a texture name: it is not empty and holds no blank character.
pub open spec fn is_name(t: Seq<char>) -> bool {
    &&& t.len() > 0
    &&& forall|k: int| 0 <= k < t.len() ==> !is_blank(#[trigger] t[k])
}

/// `t` can stand between quotes: it is not empty and holds no quote.
pub open spec fn is_quotable(t: Seq<char>) -> bool {
    &&& t.len() > 0
    &&& forall|k: int| 0 <= k < t.len() ==> (#[trigger] t[k]) != '"'
}

/// Every key and every value of the list can stand between quotes.
pub open spec fn are_quotable(entries: Seq<(Seq<char>, Seq<char>)>) -> bool {
    forall|i: int|
        0 <= i < entries.len() ==> is_quotable((#[trigger] entries[i]).0) && is_quotable(
            entries[i].1,
        )
}

/// `c` is a decimal digit.
pub open spec fn is_digit(c: char) -> bool {
    '0' <= c <= '9'
}

/// Where the digits that start at `i` end.
pub open spec fn digits_end(t: Seq<char>, i: int) -> int
    decreases t.len() - i,
{
    if 0 <= i < t.len() && is_digit(t[i]) {
        digits_end(t, i + 1)
    } else {
        i
    }
}

/// `t` is an exponent from the place `i` to its end: the letter `e`, then
/// `+` or `-` or neither, then one digit or more.
pub open spec fn is_exponent(t: Seq<char>, i: int) -> bool {
    &&& 0 <= i < t.len()
    &&& t[i] == 'e'
    &&& {
        let d = if i + 1 < t.len() && (t[i + 1] == '-' || t[i + 1] == '+') {
            i + 2
        } else {
            i + 1
        };
        d < digits_end(t, d) == t.len()
    }
}

/// `t` is a number: `-` or nothing; then digits with at most one point
/// among, before or after them, and one digit at least; then an exponent or
/// nothing.
pub open spec fn is_number(t: Seq<char>) -> bool {
    let a = if 0 < t.len() && t[0] == '-' {
        1int
    } else {
        0int
    };
    let b = digits_end(t, a);
    let c = if b < t.len() && t[b] == '.' {
        digits_end(t, b + 1)
    } else {
        b
    };
    &&& (a < b || b + 1 < c)
    &&& (c == t.len() || is_exponent(t, c))
}

/// A number, as written.
#[derive(Debug, Default, Clone, PartialEq, Eq)]
pub struct Number {
    pub text: String,
}

impl View for Number {
    type V = Seq<char>;

    open spec fn view(&self) -> Seq<char> {
        self.text@
    }
}

impl Number {
    /// The text is a number.
    pub open spec fn wf(&self) -> bool {
        is_number(self@)
    }
}

/// A point or a direction, coordinate by coordinate.
pub open spec fn triple(v: [Number; 3]) -> Seq<Seq<char>> {
    seq![v[0]@, v[1]@, v[2]@]
}

/// Two numbers of a kind.
pub open spec fn pair(v: [Number; 2]) -> Seq<Seq<char>> {
    seq![v[0]@, v[1]@]
}

/// One face of a brush.
#[derive(Debug, Default, Clone, PartialEq, Eq)]
pub struct Face {
    /// Three points of the face's plane, clockwise as seen from outside the brush.
    pub triangle: [[Number; 3]; 3],
    pub texture_name: String,
    /// The direction along which the texture's first coordinate grows.
    pub axis_u: [Number; 3],
    /// The direction along which the texture's second coordinate grows.
    pub axis_v: [Number; 3],
    pub offset: [Number; 2],
    pub rotation: Number,
    pub scale: [Number; 2],
}

/// A face as a mathematical value.
pub struct FaceView {
    pub triangle: Seq<Seq<Seq<char>>>,
    pub texture_name: Seq<char>,
    pub axis_u: Seq<Seq<char>>,
    pub axis_v: Seq<Seq<char>>,
    pub offset: Seq<Seq<char>>,
    pub rotation: Seq<char>,
    pub scale: Seq<Seq<char>>,
}

/// Each text of the list is a number, and there are `n` of them.
pub open spec fn are_numbers(texts: Seq<Seq<char>>, n: nat) -> bool {
    &&& texts.len() == n
    &&& forall|i: int| 0 <= i < texts.len() ==> is_number(#[trigger] texts[i])
}

impl FaceView {
    /// Every number of the face is a number, and its name is a name.
    pub open spec fn wf(self) -> bool {
        &&& self.triangle.len() == 3
        &&& forall|p: int| 0 <= p < 3 ==> are_numbers(#[trigger] self.triangle[p], 3)
        &&& is_name(self.texture_name)
        &&& are_numbers(self.axis_u, 3)
        &&& are_numbers(self.axis_v, 3)
        &&& are_numbers(self.offset, 2)
        &&& is_number(self.rotation)
        &&& are_numbers(self.scale, 2)
    }
}

impl View for Face {
    type V = FaceView;

    open spec fn view(&self) -> FaceView {
        FaceView {
            triangle: seq![
                triple(self.triangle[0]),
                triple(self.triangle[1]),
                triple(self.triangle[2]),
            ],
            texture_name: self.texture_name@,
            axis_u: triple(self.axis_u),
            axis_v: triple(self.axis_v),
            offset: pair(self.offset),
            rotation: self.rotation@,
            scale: pair(self.scale),
        }
    }
}

/// A brush: a convex solid, bounded by its faces.
#[derive(Debug, Default, Clone, PartialEq, Eq)]
pub struct Brush {
    pub faces: Vec<Face>,
}

impl View for Brush {
    type V = Seq<FaceView>;

    open spec fn view(&self) -> Seq<FaceView> {
        Seq::new(self.faces@.len(), |i: int| self.faces@[i]@)
    }
}

/// Every face of the brush is well formed, and it has one at least.
pub open spec fn brush_wf(brush: Seq<FaceView>) -> bool {
    &&& brush.len() > 0
    &&& forall|i: int| 0 <= i < brush.len() ==> (#[trigger] brush[i]).wf()
}

/// The properties of an entity: values by their keys. No key occurs twice.
/// The keys are kept in an order, which `==` looks at and the view does not.
#[derive(Debug, Default, Clone, PartialEq, Eq)]
pub struct Properties {
    entries: Vec<(String, String)>,
}

/// The keys and values of a list, each by its view.
pub open spec fn texts(entries: Seq<(String, String)>) -> Seq<(Seq<char>, Seq<char>)> {
    Seq::new(entries.len(), |i: int| (entries[i].0@, entries[i].1@))
}

/// The mapping that a list of keys and values amounts to, where a later
/// value for a key takes the place of an earlier one.
pub open spec fn mapping(entries: Seq<(Seq<char>, Seq<char>)>) -> Map<Seq<char>, Seq<char>>
    decreases entries.len(),
{
    if entries.len() == 0 {
        Map::empty()
    } else {
        mapping(entries.drop_last()).insert(entries.last().0, entries.last().1)
    }
}

/// No key occurs twice in the list.
pub open spec fn distinct_keys(entries: Seq<(Seq<char>, Seq<char>)>) -> bool {
    forall|i: int, j: int|
        0 <= i < j < entries.len() ==> (#[trigger] entries[i]).0 != (#[trigger] entries[j]).0
}

/// The mapping of a list holds the keys of the list and no others. Where no
/// key occurs twice it holds each with the value that stands beside it.
pub proof fn mapping_holds(entries: Seq<(Seq<char>, Seq<char>)>)
    ensures
        forall|k: Seq<char>| #[trigger]
            mapping(entries).contains_key(k) <==> exists|i: int|
                0 <= i < entries.len() && (#[trigger] entries[i]).0 == k,
        distinct_keys(entries) ==> forall|i: int|
            0 <= i < entries.len() ==> mapping(entries)[(#[trigger] entries[i]).0] == entries[i].1,
        mapping(entries).dom().finite(),
    decreases entries.len(),
{
    if entries.len() > 0 {
        let front = entries.drop_last();
        mapping_holds(front);
        assert forall|k: Seq<char>| #[trigger]
            mapping(entries).contains_key(k) implies exists|i: int|
            0 <= i < entries.len() && (#[trigger] entries[i]).0 == k by {
            if k == entries.last().0 {
                assert(entries[entries.len() - 1].0 == k);
            } else {
                assert(mapping(front).contains_key(k));
                let i = choose|i: int| 0 <= i < front.len() && (#[trigger] front[i]).0 == k;
                assert(entries[i].0 == k);
            }
        }
        assert forall|k: Seq<char>|
            (exists|i: int|
                0 <= i < entries.len() && (#[trigger] entries[i]).0 == k) implies #[trigger]
            mapping(entries).contains_key(k) by {
            let i = choose|i: int| 0 <= i < entries.len() && (#[trigger] entries[i]).0 == k;
            if i < front.len() {
                assert(front[i].0 == k);
            }
        }
        if distinct_keys(entries) {
            assert(distinct_keys(front)) by {
                assert forall|i: int, j: int| 0 <= i < j < front.len() implies (
                #[trigger] front[i]).0 != (#[trigger] front[j]).0 by {
                    assert(entries[i].0 != entries[j].0);
                }
            }
            assert forall|i: int| 0 <= i < entries.len() implies mapping(entries)[(
            #[trigger] entries[i]).0] == entries[i].1 by {
                if i < front.len() {
                    assert(entries[i].0 != entries[entries.len() - 1].0);
                    assert(front[i] == entries[i]);
                }
            }
        }
    }
}

impl View for Properties {
    type V = Map<Seq<char>, Seq<char>>;

    open spec fn view(&self) -> Map<Seq<char>, Seq<char>> {
        mapping(self.listing())
    }
}

impl Properties {
    /// The keys, each with its value, in the order in which they are kept.
    pub closed spec fn listing(&self) -> Seq<(Seq<char>, Seq<char>)> {
        texts(self.entries@)
    }

    /// No key occurs twice.
    pub open spec fn wf(&self) -> bool {
        distinct_keys(self.listing())
    }

    /// No properties.
    pub fn new() -> (properties: Self)
        ensures
            properties.wf(),
            properties.listing() == Seq::<(Seq<char>, Seq<char>)>::empty(),
            properties@ == Map::<Seq<char>, Seq<char>>::empty(),
    {
        let properties = Properties { entries: Vec::new() };
        assert(texts(properties.entries@) =~= Seq::empty());
        properties
    }

    /// The place of `key` among the entries.
    fn find(&self, key: &String) -> (r: Option<usize>)
        ensures
            match r {
                Some(i) => i < self.entries@.len() && self.entries@[i as int].0@ == key@,
                None => forall|i: int|
                    0 <= i < self.entries@.len() ==> (#[trigger] self.entries@[i]).0@ != key@,
            },
    {
        let mut i: usize = 0;
        while i < self.entries.len()
            invariant
                i <= self.entries@.len(),
                forall|j: int| 0 <= j < i ==> (#[trigger] self.entries@[j]).0@ != key@,
            decreases self.entries@.len() - i,
        {
            if self.entries[i].0 == *key {
                return Some(i);
            }
            i += 1;
        }
        None
    }

    /// Sets the value of `key`, in place of the one it had, if it had one.
    pub fn insert(&mut self, key: String, value: String)
        requires
            old(self).wf(),
        ensures
            final(self).wf(),
            final(self)@ == old(self)@.insert(key@, value@),
            final(self).listing() == old(self).listing().push((key@, value@))
                || exists|i: int|
                0 <= i < old(self).listing().len() && old(self).listing()[i].0 == key@
                    && final(self).listing() == old(self).listing().update(i, (key@, value@)),
    {
        let ghost before = texts(self.entries@);
        proof {
            mapping_holds(before);
        }
        match self.find(&key) {
            Some(i) => {
                self.entries.set(i, (key, value));
                proof {
                    let after = texts(self.entries@);
                    assert(after =~= before.update(i as int, (key@, value@)));
                    assert(distinct_keys(after)) by {
                        assert forall|a: int, b: int| 0 <= a < b < after.len() implies (
                        #[trigger] after[a]).0 != (#[trigger] after[b]).0 by {
                            assert(before[a].0 != before[b].0);
                        }
                    }
                    mapping_holds(after);
                    assert forall|k: Seq<char>|
                        mapping(after).contains_key(k) == #[trigger] mapping(before).insert(
                            key@,
                            value@,
                        ).contains_key(k) by {
                        if mapping(after).contains_key(k) {
                            let j = choose|j: int|
                                0 <= j < after.len() && (#[trigger] after[j]).0 == k;
                            assert(before[j].0 == k);
                        }
                        if mapping(before).contains_key(k) {
                            let j = choose|j: int|
                                0 <= j < before.len() && (#[trigger] before[j]).0 == k;
                            assert(after[j].0 == k);
                        }
                        if k == key@ {
                            assert(after[i as int].0 == k);
                        }
                    }
                    assert forall|k: Seq<char>| #[trigger]
                        mapping(after).contains_key(k) implies mapping(after)[k] == mapping(
                        before,
                    ).insert(key@, value@)[k] by {
                        let j = choose|j: int| 0 <= j < after.len() && (#[trigger] after[j]).0 == k;
                        assert(mapping(after)[after[j].0] == after[j].1);
                        if j != i {
                            assert(before[j] == after[j]);
                            assert(before[j].0 != before[i as int].0);
                            assert(mapping(before)[before[j].0] == before[j].1);
                        }
                    }
                    assert(mapping(after) =~= mapping(before).insert(key@, value@));
                }
            },
            None => {
                self.entries.push((key, value));
                proof {
                    let after = texts(self.entries@);
                    assert(after.drop_last() =~= before);
                    assert(after.last() == (key@, value@));
                    assert(distinct_keys(after)) by {
                        assert forall|a: int, b: int| 0 <= a < b < after.len() implies (
                        #[trigger] after[a]).0 != (#[trigger] after[b]).0 by {
                            if b < before.len() {
                                assert(before[a].0 != before[b].0);
                            } else {
                                assert(self.entries@[a].0@ != key@);
                            }
                        }
                    }
                }
            },
        }
    }

    /// The value of `key`, if it has one.
    pub fn get(&self, key: &str) -> (r: Option<&String>)
        requires
            self.wf(),
        ensures
            match r {
                Some(value) => self@.contains_key(key@) && self@[key@] == value@,
                None => !self@.contains_key(key@),
            },
    {
        let owned = key.to_owned();
        proof {
            mapping_holds(texts(self.entries@));
        }
        match self.find(&owned) {
            Some(i) => {
                assert(texts(self.entries@)[i as int].0 == key@);
                Some(&self.entries[i].1)
            },
            None => {
                assert forall|i: int| 0 <= i < self.entries@.len() implies (#[trigger] texts(
                    self.entries@,
                )[i]).0 != key@ by {
                    assert(self.entries@[i].0@ != key@);
                }
                None
            },
        }
    }

    /// The keys, each with its value, in no order that means anything.
    pub fn pairs(&self) -> (pairs: &Vec<(String, String)>)
        ensures
            texts(pairs@) == self.listing(),
    {
        &self.entries
    }

    /// How many keys have a value.
    pub fn len(&self) -> (n: usize)
        requires
            self.wf(),
        ensures
            n == self@.len(),
            self@.dom().finite(),
    {
        proof {
            mapping_counts(texts(self.entries@));
        }
        self.entries.len()
    }
}

/// Where no key occurs twice, the mapping has as many keys as the list has entries.
pub proof fn mapping_counts(entries: Seq<(Seq<char>, Seq<char>)>)
    requires
        distinct_keys(entries),
    ensures
        mapping(entries).dom().finite(),
        mapping(entries).len() == entries.len(),
    decreases entries.len(),
{
    mapping_holds(entries);
    if entries.len() > 0 {
        let front = entries.drop_last();
        assert(distinct_keys(front)) by {
            assert forall|i: int, j: int| 0 <= i < j < front.len() implies (#[trigger] front[i]).0
                != (#[trigger] front[j]).0 by {
                assert(entries[i].0 != entries[j].0);
            }
        }
        mapping_counts(front);
        mapping_holds(front);
        assert(!mapping(front).contains_key(entries.last().0)) by {
            if mapping(front).contains_key(entries.last().0) {
                let i = choose|i: int|
                    0 <= i < front.len() && (#[trigger] front[i]).0 == entries.last().0;
                assert(entries[i].0 != entries[entries.len() - 1].0);
            }
        }
    }
}

/// An entity: properties, and the brushes that make its shape, if it has one.
#[derive(Debug, Default, Clone, PartialEq, Eq)]
pub struct Entity {
    pub properties: Properties,
    pub brushes: Vec<Brush>,
}

/// An entity as it is written: its properties in an order.
pub struct Draft {
    pub entries: Seq<(Seq<char>, Seq<char>)>,
    pub brushes: Seq<Seq<FaceView>>,
}

impl Draft {
    /// The entity that is written.
    pub open spec fn entity(self) -> EntityView {
        EntityView { properties: mapping(self.entries), brushes: self.brushes }
    }

    /// Every key and value can stand between quotes, and every brush is well formed.
    pub open spec fn wf(self) -> bool {
        &&& are_quotable(self.entries)
        &&& forall|i: int| 0 <= i < self.brushes.len() ==> brush_wf(#[trigger] self.brushes[i])
    }
}

/// An entity as a mathematical value.
pub struct EntityView {
    pub properties: Map<Seq<char>, Seq<char>>,
    pub brushes: Seq<Seq<FaceView>>,
}

impl EntityView {
    /// Every brush of the entity is well formed.
    pub open spec fn wf(self) -> bool {
        forall|i: int| 0 <= i < self.brushes.len() ==> brush_wf(#[trigger] self.brushes[i])
    }
}

impl Entity {
    /// The entity as it is written.
    pub open spec fn draft(&self) -> Draft {
        Draft { entries: self.properties.listing(), brushes: self@.brushes }
    }
}

impl View for Entity {
    type V = EntityView;

    open spec fn view(&self) -> EntityView {
        EntityView {
            properties: self.properties@,
            brushes: Seq::new(self.brushes@.len(), |i: int| self.brushes@[i]@),
        }
    }
}

/// A map: its entities, in the order of the file.
#[derive(Debug, Default, Clone, PartialEq, Eq)]
pub struct MapFile {
    pub entities: Vec<Entity>,
}

impl View for MapFile {
    type V = Seq<EntityView>;

    open spec fn view(&self) -> Seq<EntityView> {
        Seq::new(self.entities@.len(), |i: int| self.entities@[i]@)
    }
}

/// Every entity of the map is well formed.
pub open spec fn map_wf(map: Seq<EntityView>) -> bool {
    forall|i: int| 0 <= i < map.len() ==> (#[trigger] map[i]).wf()
}

impl MapFile {
    /// The entities as they are written.
    pub open spec fn drafts(&self) -> Seq<Draft> {
        Seq::new(self.entities@.len(), |i: int| self.entities@[i].draft())
    }

    /// No entity has two values for one key; every key and value can stand
    /// between quotes; every brush has a face; every name is a name and
    /// every number a number.
    pub open spec fn wf(&self) -> bool {
        forall|i: int|
            0 <= i < self.entities@.len() ==> (#[trigger] self.entities@[i]).properties.wf()
                && self.entities@[i].draft().wf()
    }
}

} // verus!
