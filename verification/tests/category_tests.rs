use categorical_coordination::category::{Category, Morphism};
use categorical_coordination::functor::Functor;
use categorical_coordination::limits::{pullback, pushout};
use categorical_coordination::natural::NaturalTransformation;
use categorical_coordination::protocol::CoordinationProtocol;

fn simple_category() -> Category {
    let mut cat = Category::new("Simple");
    cat.add_object("A");
    cat.add_object("B");
    cat.add_object("C");
    cat.add_morphism(Morphism::new("f", "A", "B"));
    cat.add_morphism(Morphism::new("g", "B", "C"));
    cat.compose("g", "f", "gf");
    cat
}

#[test]
fn test_category_creation() {
    let cat = simple_category();
    assert_eq!(cat.num_objects(), 3);
    assert!(cat.find_morphism("f").is_some());
    assert!(cat.find_morphism("g").is_some());
    assert!(cat.find_morphism("gf").is_some());
}

#[test]
fn test_identity_morphisms() {
    let cat = simple_category();
    let id_a = cat.identity("A").unwrap();
    assert_eq!(id_a.source, "A");
    assert_eq!(id_a.target, "A");
}

#[test]
fn test_hom_set() {
    let cat = simple_category();
    let hom_ab = cat.hom("A", "B");
    assert_eq!(hom_ab.len(), 1);
    assert_eq!(hom_ab[0].id, "f");
}

#[test]
fn test_composition() {
    let cat = simple_category();
    let gf = cat.find_morphism("gf").unwrap();
    assert_eq!(gf.source, "A");
    assert_eq!(gf.target, "C");
}

#[test]
fn test_identity_laws() {
    let mut cat = Category::new("Test");
    cat.add_object("X");
    cat.add_object("Y");
    cat.add_morphism(Morphism::new("h", "X", "Y"));
    // Define h ∘ id_X = h and id_Y ∘ h = h
    cat.compose("h", "id_X", "h");
    cat.compose("id_Y", "h", "h");
    assert!(cat.verify_identity_laws());
}

#[test]
fn test_functor_basic() {
    let mut f = Functor::new("F", "C1", "C2");
    f.map_object("A", "X");
    f.map_object("B", "Y");
    assert_eq!(f.apply_to_object("A"), Some(&"X".to_string()));
    assert_eq!(f.apply_to_object("B"), Some(&"Y".to_string()));
    assert!(f.apply_to_object("Z").is_none());
}

#[test]
fn test_functor_mapping() {
    let mut f = Functor::new("F", "C1", "C2");
    f.map_morphism("f", "f'");
    f.map_morphism("g", "g'");
    assert_eq!(f.apply_to_morphism("f"), Some(&"f'".to_string()));
}

#[test]
fn test_natural_transformation() {
    let mut nt = NaturalTransformation::new("alpha", "F", "G");
    nt.set_component("A", "alpha_A");
    nt.set_component("B", "alpha_B");
    assert_eq!(nt.components.get("A"), Some(&"alpha_A".to_string()));
    assert_eq!(nt.components.get("B"), Some(&"alpha_B".to_string()));
}

#[test]
fn test_pullback() {
    let mut cat = Category::new("PB");
    cat.add_object("A");
    cat.add_object("B");
    cat.add_object("C");
    cat.add_morphism(Morphism::new("f", "A", "C"));
    cat.add_morphism(Morphism::new("g", "B", "C"));

    let result = pullback(&mut cat, "f", "g", "A×_C B");
    assert!(result.is_some());
    let (p1, p2) = result.unwrap();
    assert!(cat.find_morphism(&p1).is_some());
    assert!(cat.find_morphism(&p2).is_some());
    assert_eq!(cat.num_objects(), 4); // A, B, C, A×_C B
}

#[test]
fn test_pushout() {
    let mut cat = Category::new("PO");
    cat.add_object("A");
    cat.add_object("B");
    cat.add_object("C");
    cat.add_morphism(Morphism::new("f", "C", "A"));
    cat.add_morphism(Morphism::new("g", "C", "B"));

    let result = pushout(&mut cat, "f", "g", "A+_C B");
    assert!(result.is_some());
    let (i1, i2) = result.unwrap();
    assert!(cat.find_morphism(&i1).is_some());
    assert!(cat.find_morphism(&i2).is_some());
    assert_eq!(cat.num_objects(), 4);
}

#[test]
fn test_coordination_protocol() {
    let mut proto = CoordinationProtocol::new("test_proto");
    proto.register_agent("agent1", "idle");
    proto.register_agent("agent2", "idle");
    assert_eq!(proto.num_agents(), 2);
    assert_eq!(proto.num_messages(), 0);
}

#[test]
fn test_coordination_messages() {
    let mut proto = CoordinationProtocol::new("msg_test");
    proto.register_agent("alice", "ready");
    proto.register_agent("bob", "ready");
    proto.send_message("hello", "alice", "bob");
    proto.send_message("reply", "bob", "alice");

    assert_eq!(proto.num_messages(), 2);
    assert_eq!(proto.messages_from("alice").len(), 1);
    assert_eq!(proto.messages_to("alice").len(), 1);
    assert_eq!(proto.get_state("alice"), Some(&"ready".to_string()));
}

#[test]
fn test_coordination_state_update() {
    let mut proto = CoordinationProtocol::new("state_test");
    proto.register_agent("agent", "idle");
    proto.update_state("agent", "busy");
    assert_eq!(proto.get_state("agent"), Some(&"busy".to_string()));
}
