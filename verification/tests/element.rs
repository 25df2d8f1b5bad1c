use datamodel::attribute::AttributeValue;
use datamodel::{Element, ElementGraph};

#[test]
fn new_elements_get_fresh_version4_ids() {
    let a = Element::new(String::from("DmElement"));
    let b = Element::new(String::from("DmElement"));
    assert_eq!(a.get_class(), "DmElement");
    assert!(a.get_attributes().is_empty());
    assert_ne!(a.get_id(), b.get_id());
    assert_eq!(a.get_id()[6] >> 4, 4);
}

#[test]
fn class_and_id_can_be_changed() {
    let mut e = Element::full(String::from("A"), [1u8; 16]);
    e.set_class_name(String::from("B"));
    e.set_id([2u8; 16]);
    assert_eq!(e.get_class(), "B");
    assert_eq!(e.get_id(), [2u8; 16]);
}

#[test]
fn removing_keeps_the_order_of_the_rest() {
    let mut e = Element::full(String::from("A"), [1u8; 16]);
    for (k, name) in ["a", "b", "c"].iter().enumerate() {
        e.set_attribute(String::from(*name), AttributeValue::Integer(k as i32));
    }
    assert!(matches!(e.remove_attribute("b"), Some(AttributeValue::Integer(1))));
    assert!(e.remove_attribute("b").is_none());
    let names: Vec<&String> = e.get_attributes().keys().collect();
    assert_eq!(names, vec!["a", "c"]);
}

#[test]
fn graph_positions_are_stable() {
    let mut graph = ElementGraph::new();
    assert_eq!(graph.len(), 0);
    let first = graph.add(Element::full(String::from("A"), [1u8; 16]));
    let second = graph.add(Element::full(String::from("B"), [2u8; 16]));
    assert_eq!((first, second), (0, 1));
    graph.set_attribute(0, String::from("child"), AttributeValue::Element(Some(1)));
    graph.set_id(1, [9u8; 16]);
    assert_eq!(graph.len(), 2);
    assert!(matches!(graph.get(0).get_attribute("child"), Some(AttributeValue::Element(Some(1)))));
    assert_eq!(graph.get(1).get_id(), [9u8; 16]);
    assert_eq!(graph.get(1).get_class(), "B");
}
