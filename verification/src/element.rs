//! Elements and the graphs they form.
//!
//! An [Element] has a class, an id and named attributes kept in insertion
//! order. Element attributes refer to other elements of the same
//! [ElementGraph] by their position in it, so that several attributes can
//! share one element and elements can refer to each other in cycles.

use vstd::prelude::*;
use indexmap::IndexMap;
use crate::attribute::{AttributeValue, SpecAttributeValue, UuidBytes};
use crate::collections::{
    attribute_entries, attribute_map_get, attribute_map_insert, attribute_map_new,
    attribute_map_shift_remove, key_position, lemma_key_position, map_insert, map_shift_remove,
};
use crate::ids::new_v4;

verus! {

/// The class that an element has when none is given.
pub open spec fn default_element_class() -> Seq<char> {
    seq!['D', 'm', 'E', 'l', 'e', 'm', 'e', 'n', 't']
}

/// A single element of the data model.
#[derive(Debug)]
pub struct Element {
    /// The class name of the element.
    pub class: String,
    /// The id of the element.
    pub id: UuidBytes,
    /// The attributes of the element, in insertion order.
    pub attributes: IndexMap<String, AttributeValue>,
}

/// An element as a value of specifications.
pub struct ElementView {
    pub class: Seq<char>,
    pub id: Seq<u8>,
    pub attributes: Seq<(Seq<char>, SpecAttributeValue)>,
}

/// The view of attribute entries.
pub open spec fn entries_view(e: Seq<(Seq<char>, AttributeValue)>) -> Seq<(Seq<char>, SpecAttributeValue)> {
    e.map_values(|p: (Seq<char>, AttributeValue)| (p.0, p.1@))
}

/// The element view `e` with the attribute `name` set to `value`.
pub open spec fn with_attribute(e: ElementView, name: Seq<char>, value: SpecAttributeValue) -> ElementView {
    ElementView { attributes: map_insert(e.attributes, name, value), ..e }
}

/// Entries with the same keys in the same places have the same first position of a key.
pub proof fn lemma_key_position_same_keys<K, V, W>(a: Seq<(K, V)>, b: Seq<(K, W)>, k: K)
    requires
        a.len() == b.len(),
        forall|i: int| 0 <= i < a.len() ==> (#[trigger] a[i]).0 == b[i].0,
    ensures
        key_position(a, k) == key_position(b, k),
    decreases a.len(),
{
    if a.len() > 0 {
        assert forall|i: int| 0 <= i < a.drop_first().len() implies (#[trigger] a.drop_first()[i]).0
            == b.drop_first()[i].0 by {
            assert(a.drop_first()[i] == a[i + 1]);
            assert(b.drop_first()[i] == b[i + 1]);
        }
        lemma_key_position_same_keys(a.drop_first(), b.drop_first(), k);
    }
}

/// Setting an attribute commutes with taking views.
pub proof fn lemma_entries_view_insert(e: Seq<(Seq<char>, AttributeValue)>, k: Seq<char>, v: AttributeValue)
    ensures
        entries_view(map_insert(e, k, v)) == map_insert(entries_view(e), k, v@),
{
    let ev = entries_view(e);
    assert forall|i: int| 0 <= i < e.len() implies (#[trigger] e[i]).0 == ev[i].0 by {}
    lemma_key_position_same_keys(e, ev, k);
    lemma_key_position(e, k);
    match key_position(e, k) {
        Some(i) => {
            assert(entries_view(e.update(i, (e[i].0, v))) =~= ev.update(i, (ev[i].0, v@)));
        },
        None => {
            assert(entries_view(e.push((k, v))) =~= ev.push((k, v@)));
        },
    }
}

impl View for Element {
    type V = ElementView;

    open spec fn view(&self) -> ElementView {
        ElementView {
            class: self.class@,
            id: self.id@,
            attributes: entries_view(attribute_entries(self.attributes)),
        }
    }
}

impl Element {
    /// The attribute entries of the element, in order.
    pub open spec fn entries(&self) -> Seq<(Seq<char>, AttributeValue)> {
        attribute_entries(self.attributes)
    }

    /// Creates an element of the given class with a newly generated random id.
    pub fn new(class: String) -> (r: Element)
        ensures
            r.class@ == class@,
            r.entries() == Seq::<(Seq<char>, AttributeValue)>::empty(),
    {
        Element { class, id: new_v4(), attributes: attribute_map_new() }
    }

    /// Creates an element with the class and id given.
    pub fn full(class: String, id: UuidBytes) -> (r: Element)
        ensures
            r.class@ == class@,
            r.id == id,
            r.entries() == Seq::<(Seq<char>, AttributeValue)>::empty(),
    {
        Element { class, id, attributes: attribute_map_new() }
    }

    /// Returns the class of the element.
    pub fn get_class(&self) -> (r: &str)
        ensures
            r@ == self.class@,
    {
        self.class.as_str()
    }

    /// Sets the class of the element.
    pub fn set_class_name(&mut self, class: String)
        ensures
            final(self).class@ == class@,
            final(self).id == old(self).id,
            final(self).entries() == old(self).entries(),
    {
        self.class = class;
    }

    /// Returns the id of the element.
    pub fn get_id(&self) -> (r: UuidBytes)
        ensures
            r == self.id,
    {
        self.id
    }

    /// Sets the id of the element.
    pub fn set_id(&mut self, id: UuidBytes)
        ensures
            final(self).id == id,
            final(self).class@ == old(self).class@,
            final(self).entries() == old(self).entries(),
    {
        self.id = id;
    }

    /// Returns the attribute with the given name, if there is one.
    pub fn get_attribute(&self, name: &str) -> (r: Option<&AttributeValue>)
        ensures
            match r {
                Some(v) => key_position(self.entries(), name@) matches Some(i) && *v
                    == self.entries()[i].1,
                None => key_position(self.entries(), name@) is None,
            },
    {
        attribute_map_get(&self.attributes, name)
    }

    /// Removes the attribute with the given name and returns it, keeping the
    /// order of the other attributes.
    pub fn remove_attribute(&mut self, name: &str) -> (r: Option<AttributeValue>)
        ensures
            final(self).entries() == map_shift_remove(old(self).entries(), name@),
            r == match key_position(old(self).entries(), name@) {
                Some(i) => Some(old(self).entries()[i].1),
                None => None,
            },
            final(self).class@ == old(self).class@,
            final(self).id == old(self).id,
    {
        attribute_map_shift_remove(&mut self.attributes, name)
    }

    /// Sets the attribute with the given name and returns the value it replaced.
    /// An existing attribute keeps its place; a new one comes last.
    pub fn set_attribute(&mut self, name: String, value: AttributeValue) -> (r: Option<AttributeValue>)
        ensures
            final(self).entries() == map_insert(old(self).entries(), name@, value),
            r == match key_position(old(self).entries(), name@) {
                Some(i) => Some(old(self).entries()[i].1),
                None => None,
            },
            final(self).class@ == old(self).class@,
            final(self).id == old(self).id,
    {
        attribute_map_insert(&mut self.attributes, name, value)
    }

    /// Returns the attributes of the element.
    pub fn get_attributes(&self) -> (r: &IndexMap<String, AttributeValue>)
        ensures
            attribute_entries(*r) == self.entries(),
    {
        &self.attributes
    }
}

/// A set of elements that refer to each other by position.
#[derive(Debug)]
pub struct ElementGraph {
    pub elements: Vec<Element>,
}

impl View for ElementGraph {
    type V = Seq<ElementView>;

    open spec fn view(&self) -> Seq<ElementView> {
        self.elements@.map_values(|e: Element| e@)
    }
}

impl ElementGraph {
    /// An empty graph.
    pub fn new() -> (r: ElementGraph)
        ensures
            r.elements@.len() == 0,
    {
        ElementGraph { elements: Vec::new() }
    }

    /// The number of elements.
    pub fn len(&self) -> (r: usize)
        ensures
            r == self.elements@.len(),
    {
        self.elements.len()
    }

    /// Adds an element and returns its position.
    pub fn add(&mut self, element: Element) -> (r: usize)
        ensures
            r == old(self).elements@.len(),
            final(self).elements@ == old(self).elements@.push(element),
            final(self)@ == old(self)@.push(element@),
    {
        let r = self.elements.len();
        self.elements.push(element);
        assert(self@ =~= old(self)@.push(element@));
        r
    }

    /// The element at a position.
    pub fn get(&self, index: usize) -> (r: &Element)
        requires
            index < self.elements@.len(),
        ensures
            *r == self.elements@[index as int],
    {
        &self.elements[index]
    }

    /// Gives the element at `index` the id `id`.
    pub fn set_id(&mut self, index: usize, id: UuidBytes)
        requires
            index < old(self).elements@.len(),
        ensures
            final(self).elements@.len() == old(self).elements@.len(),
            final(self)@ == old(self)@.update(index as int, ElementView { id: id@, ..old(self)@[index as int] }),
    {
        let e = &mut self.elements[index];
        e.set_id(id);
        assert(self@ =~= old(self)@.update(index as int, ElementView { id: id@, ..old(self)@[index as int] }));
    }

    /// Sets an attribute of the element at a position.
    pub fn set_attribute(&mut self, index: usize, name: String, value: AttributeValue) -> (r: Option<AttributeValue>)
        requires
            index < old(self).elements@.len(),
        ensures
            final(self).elements@.len() == old(self).elements@.len(),
            forall|j: int| 0 <= j < old(self).elements@.len() && j != index ==> final(self).elements@[j]
                == old(self).elements@[j],
            final(self).elements@[index as int].entries() == map_insert(
                old(self).elements@[index as int].entries(),
                name@,
                value,
            ),
            final(self).elements@[index as int].class@ == old(self).elements@[index as int].class@,
            final(self).elements@[index as int].id == old(self).elements@[index as int].id,
            r == match key_position(old(self).elements@[index as int].entries(), name@) {
                Some(i) => Some(old(self).elements@[index as int].entries()[i].1),
                None => None,
            },
            final(self)@ == old(self)@.update(index as int, with_attribute(old(self)@[index as int], name@, value@)),
    {
        let ghost value_view = value@;
        let ghost name_view = name@;
        let e = &mut self.elements[index];
        let r = e.set_attribute(name, value);
        proof {
            lemma_entries_view_insert(old(self).elements@[index as int].entries(), name_view, value);
            assert(self@ =~= old(self)@.update(index as int, with_attribute(old(self)@[index as int], name_view, value_view)));
        }
        r
    }
}

} // verus!
