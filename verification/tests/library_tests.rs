use categorical_coordination::category::{Category, Morphism};
use categorical_coordination::functor::Functor;
use categorical_coordination::limits::{pullback, pushout};
use categorical_coordination::names::{join_text, has_identity_prefix, make_identity_name};
use categorical_coordination::natural::NaturalTransformation;
use categorical_coordination::protocol::CoordinationProtocol;
use categorical_coordination::strmap::StrMap;
use categorical_coordination::table::CompositionTable;

#[test]
fn morphism_text_form() {
    let m = Morphism::new("f", "A", "B");
    assert_eq!(m.to_string(), "f: A → B");
}

#[test]
fn morphism_equality_compares_all_fields() {
    assert!(Morphism::new("f", "A", "B") == Morphism::new("f", "A", "B"));
    assert!(Morphism::new("f", "A", "B") != Morphism::new("f", "A", "C"));
    assert!(Morphism::new("f", "A", "B") != Morphism::new("g", "A", "B"));
    let m = Morphism::new("f", "A", "B");
    assert!(m.duplicate() == m);
}

#[test]
fn identity_names() {
    assert_eq!(make_identity_name("A"), "id_A");
    assert!(has_identity_prefix("id_A"));
    assert!(has_identity_prefix("id_"));
    assert!(!has_identity_prefix("id"));
    assert!(!has_identity_prefix("xid_A"));
    assert!(!has_identity_prefix(""));
    assert_eq!(join_text("ab", "cd"), "abcd");
}

#[test]
fn add_object_is_idempotent() {
    let mut cat = Category::new("C");
    cat.add_object("A").add_object("A");
    cat.add_object("A");
    assert_eq!(cat.num_objects(), 1);
    assert_eq!(cat.morphisms.len(), 1);
    assert_eq!(cat.morphisms[0].id, "id_A");
    assert_eq!(cat.num_nontrivial_morphisms(), 0);
}

#[test]
fn identity_is_absent_for_unknown_object() {
    let cat = Category::new("C");
    assert!(cat.identity("A").is_none());
    assert_eq!(cat.name, "C");
}

#[test]
fn add_morphism_adds_missing_ends() {
    let mut cat = Category::new("C");
    cat.add_morphism(Morphism::new("f", "A", "B"));
    assert_eq!(cat.objects, vec!["A".to_string(), "B".to_string()]);
    let ids: Vec<&str> = cat.morphisms.iter().map(|m| m.id.as_str()).collect();
    assert_eq!(ids, vec!["id_A", "id_B", "f"]);
    assert_eq!(cat.identity("B").unwrap().id, "id_B");
    assert_eq!(cat.num_nontrivial_morphisms(), 1);
}

#[test]
fn every_sent_message_counts_whatever_its_name() {
    let mut proto = CoordinationProtocol::new("p");
    proto.register_agent("A", "s");
    let before = proto.num_messages();
    let agents = proto.num_agents();
    proto.send_message("id_A", "A", "A");
    assert_eq!(proto.num_messages(), before + 1);
    assert_eq!(proto.num_agents(), agents);
    assert_eq!(proto.messages_from("A").len(), 1);
    assert_eq!(proto.category.identity_marks, vec![true, false]);
}

#[test]
fn nontrivial_count_ignores_names() {
    let mut cat = Category::new("C");
    cat.add_morphism(Morphism::new("id_weird", "A", "B"));
    cat.add_object("C");
    cat.compose("id_weird", "id_A", "id_composite");
    assert_eq!(cat.num_nontrivial_morphisms(), 2);
    assert_eq!(cat.num_nontrivial_morphisms() + cat.num_objects(), cat.morphisms.len());
}

#[test]
fn compose_reuses_an_existing_result() {
    let mut cat = Category::new("Test");
    cat.add_object("X");
    cat.add_object("Y");
    cat.add_morphism(Morphism::new("h", "X", "Y"));
    cat.compose("h", "id_X", "h");
    cat.compose("id_Y", "h", "h");
    assert_eq!(cat.morphisms.iter().filter(|m| m.id == "h").count(), 1);
    assert_eq!(cat.num_nontrivial_morphisms(), 1);
    assert_eq!(cat.hom("X", "Y").len(), 1);
    assert_eq!(cat.composition.get("h", "id_X"), Some(&"h".to_string()));
    assert_eq!(cat.composition.get("id_Y", "h"), Some(&"h".to_string()));
    assert_eq!(cat.composition.len(), 2);
    cat.compose("h", "id_X", "h");
    assert_eq!(cat.morphisms.len(), 3);
    assert_eq!(cat.composition.len(), 2);
}

#[test]
fn copy_of_an_identity_is_not_counted() {
    let mut cat = Category::new("C");
    cat.add_object("A");
    cat.add_morphism(Morphism::new("id_A", "A", "A"));
    assert_eq!(cat.num_nontrivial_morphisms(), 0);
    assert_eq!(cat.morphisms.len(), 2);
}

#[test]
fn add_morphism_loop_adds_one_object() {
    let mut cat = Category::new("C");
    cat.add_morphism(Morphism::new("l", "A", "A"));
    assert_eq!(cat.num_objects(), 1);
    assert_eq!(cat.morphisms.len(), 2);
}

#[test]
fn compose_records_and_spans() {
    let mut cat = Category::new("C");
    cat.add_morphism(Morphism::new("f", "A", "B"));
    cat.add_morphism(Morphism::new("g", "B", "C"));
    cat.compose("g", "f", "gf");
    assert_eq!(cat.composition.get("g", "f"), Some(&"gf".to_string()));
    assert_eq!(cat.composition.len(), 1);
    let last = cat.morphisms.last().unwrap();
    assert_eq!(last.to_string(), "gf: A → C");
}

#[test]
fn compose_with_unknown_morphism_does_nothing() {
    let mut cat = Category::new("C");
    cat.add_morphism(Morphism::new("f", "A", "B"));
    let before = cat.morphisms.len();
    cat.compose("f", "missing", "h");
    cat.compose("missing", "f", "h");
    assert_eq!(cat.morphisms.len(), before);
    assert_eq!(cat.composition.len(), 0);
    assert!(cat.find_morphism("h").is_none());
}

#[test]
fn find_morphism_returns_first_match() {
    let mut cat = Category::new("C");
    cat.add_morphism(Morphism::new("f", "A", "B"));
    cat.add_morphism(Morphism::new("f", "B", "C"));
    let f = cat.find_morphism("f").unwrap();
    assert_eq!(f.source, "A");
    assert_eq!(f.target, "B");
}

#[test]
fn hom_keeps_order_and_filters() {
    let mut cat = Category::new("C");
    cat.add_morphism(Morphism::new("f1", "A", "B"));
    cat.add_morphism(Morphism::new("x", "B", "A"));
    cat.add_morphism(Morphism::new("f2", "A", "B"));
    let h = cat.hom("A", "B");
    assert_eq!(h.len(), 2);
    assert_eq!(h[0].id, "f1");
    assert_eq!(h[1].id, "f2");
    let loops = cat.hom("A", "A");
    assert_eq!(loops.len(), 1);
    assert_eq!(loops[0].id, "id_A");
    assert!(cat.hom("C", "A").is_empty());
}

#[test]
fn identity_laws_violated() {
    let mut cat = Category::new("C");
    cat.add_morphism(Morphism::new("h", "X", "Y"));
    cat.add_morphism(Morphism::new("k", "X", "Y"));
    cat.compose("h", "id_X", "k");
    assert!(!cat.verify_identity_laws());
}

#[test]
fn identity_laws_violated_on_the_left() {
    let mut cat = Category::new("C");
    cat.add_morphism(Morphism::new("h", "X", "Y"));
    cat.compose("id_Y", "h", "other");
    assert!(!cat.verify_identity_laws());
}

#[test]
fn identity_laws_exempt_identity_loops() {
    let mut cat = Category::new("C");
    cat.add_object("X");
    cat.compose("id_X", "id_X", "weird");
    // "weird: X → X" is not exempt, but nothing records composites with it.
    assert!(cat.verify_identity_laws());
}

#[test]
fn functoriality_holds_and_fails() {
    let mut src = Category::new("S");
    src.add_morphism(Morphism::new("f", "A", "B"));
    src.add_morphism(Morphism::new("g", "B", "C"));
    src.compose("g", "f", "gf");
    let mut tgt = Category::new("T");
    tgt.add_morphism(Morphism::new("f2", "X", "Y"));
    tgt.add_morphism(Morphism::new("g2", "Y", "Z"));
    tgt.compose("g2", "f2", "gf2");

    let mut good = Functor::new("F", "S", "T");
    good.map_object("A", "X").map_object("B", "Y").map_object("C", "Z");
    good.map_morphism("id_A", "id_X");
    good.map_morphism("f", "f2").map_morphism("g", "g2").map_morphism("gf", "gf2");
    assert!(good.verify_functoriality(&src, &tgt));

    let mut bad_identity = Functor::new("F", "S", "T");
    bad_identity.map_object("A", "X");
    bad_identity.map_morphism("id_A", "id_Y");
    assert!(!bad_identity.verify_functoriality(&src, &tgt));

    let mut bad_composite = Functor::new("F", "S", "T");
    bad_composite.map_morphism("f", "f2").map_morphism("g", "g2").map_morphism("gf", "f2");
    assert!(!bad_composite.verify_functoriality(&src, &tgt));

    let mut partial = Functor::new("F", "S", "T");
    partial.map_morphism("f", "f2").map_morphism("g", "g2");
    assert!(partial.verify_functoriality(&src, &tgt));
}

#[test]
fn functor_map_replaces() {
    let mut f = Functor::new("F", "C1", "C2");
    f.map_object("A", "X");
    f.map_object("A", "Y");
    assert_eq!(f.apply_to_object("A"), Some(&"Y".to_string()));
    assert_eq!(f.obj_map.len(), 1);
    assert!(f.apply_to_morphism("g").is_none());
    assert_eq!(f.name, "F");
    assert_eq!(f.source_cat, "C1");
    assert_eq!(f.target_cat, "C2");
}

#[test]
fn naturality_holds_and_fails() {
    let mut src = Category::new("S");
    src.add_morphism(Morphism::new("m", "A", "B"));
    let mut tgt = Category::new("T");
    tgt.add_morphism(Morphism::new("Fm", "FA", "FB"));
    tgt.add_morphism(Morphism::new("Gm", "GA", "GB"));
    tgt.add_morphism(Morphism::new("aA", "FA", "GA"));
    tgt.add_morphism(Morphism::new("aB", "FB", "GB"));
    tgt.compose("aB", "Fm", "sq");
    tgt.compose("Gm", "aA", "sq");

    let mut f = Functor::new("F", "S", "T");
    f.map_morphism("m", "Fm");
    let mut g = Functor::new("G", "S", "T");
    g.map_morphism("m", "Gm");

    let mut nt = NaturalTransformation::new("alpha", "F", "G");
    nt.set_component("A", "aA").set_component("B", "aB");
    assert!(nt.verify_naturality(&f, &g, &src, &tgt));

    let mut tgt2 = tgt.clone();
    tgt2.compose("Gm", "aA", "other");
    tgt2.composition.insert("Gm", "aA", "other");
    assert!(!nt.verify_naturality(&f, &g, &src, &tgt2));

    let mut missing = NaturalTransformation::new("beta", "F", "G");
    missing.set_component("A", "aA");
    assert!(missing.verify_naturality(&f, &g, &src, &tgt2));
    assert_eq!(nt.name, "alpha");
    assert_eq!(nt.source_functor, "F");
    assert_eq!(nt.target_functor, "G");
}

#[test]
fn pullback_shape_and_names() {
    let mut cat = Category::new("PB");
    cat.add_morphism(Morphism::new("f", "A", "C"));
    cat.add_morphism(Morphism::new("g", "B", "C"));
    let (p1, p2) = pullback(&mut cat, "f", "g", "P").unwrap();
    assert_eq!(p1, "pb_proj1_P");
    assert_eq!(p2, "pb_proj2_P");
    let m1 = cat.find_morphism(&p1).unwrap();
    assert_eq!((m1.source.as_str(), m1.target.as_str()), ("P", "A"));
    let m2 = cat.find_morphism(&p2).unwrap();
    assert_eq!((m2.source.as_str(), m2.target.as_str()), ("P", "B"));
    assert!(cat.identity("P").is_some());
}

#[test]
fn pullback_missing_morphism() {
    let mut cat = Category::new("PB");
    cat.add_morphism(Morphism::new("f", "A", "C"));
    assert!(pullback(&mut cat, "f", "g", "P").is_none());
    assert!(pullback(&mut cat, "g", "f", "P").is_none());
    assert_eq!(cat.num_objects(), 2);
}

#[test]
fn pushout_shape_and_names() {
    let mut cat = Category::new("PO");
    cat.add_morphism(Morphism::new("f", "C", "A"));
    cat.add_morphism(Morphism::new("g", "C", "B"));
    let (i1, i2) = pushout(&mut cat, "f", "g", "Q").unwrap();
    assert_eq!(i1, "po_inj1_Q");
    assert_eq!(i2, "po_inj2_Q");
    let m1 = cat.find_morphism(&i1).unwrap();
    assert_eq!((m1.source.as_str(), m1.target.as_str()), ("A", "Q"));
    let m2 = cat.find_morphism(&i2).unwrap();
    assert_eq!((m2.source.as_str(), m2.target.as_str()), ("B", "Q"));
    assert!(pushout(&mut cat, "f", "missing", "R").is_none());
    assert_eq!(cat.num_objects(), 4);
}

#[test]
fn protocol_registration_and_states() {
    let mut proto = CoordinationProtocol::new("p");
    assert_eq!(proto.category.name, "p_cat");
    assert_eq!(proto.name, "p");
    proto.register_agent("a", "idle");
    proto.register_agent("a", "busy");
    assert_eq!(proto.num_agents(), 1);
    assert_eq!(proto.category.num_objects(), 1);
    assert_eq!(proto.get_state("a"), Some(&"busy".to_string()));
    proto.update_state("ghost", "x");
    assert!(proto.get_state("ghost").is_none());
    assert_eq!(proto.num_agents(), 1);
}

#[test]
fn protocol_messages() {
    let mut proto = CoordinationProtocol::new("p");
    proto.register_agent("a", "s");
    proto.send_message("m1", "a", "b");
    proto.send_message("m2", "a", "c");
    proto.send_message("id_x", "a", "a");
    assert_eq!(proto.num_messages(), 3);
    let from_a: Vec<&str> = proto.messages_from("a").iter().map(|m| m.id.as_str()).collect();
    assert_eq!(from_a, vec!["m1", "m2", "id_x"]);
    assert_eq!(proto.messages_to("b").len(), 1);
    assert_eq!(proto.messages_to("a").len(), 1);
    assert_eq!(proto.category.num_objects(), 3);
    assert_eq!(proto.num_agents(), 1);
}

#[test]
fn string_map_basics() {
    let mut m: StrMap<u32> = StrMap::new();
    assert_eq!(m.len(), 0);
    m.insert("a", 1);
    m.insert("b", 2);
    m.insert("a", 3);
    assert_eq!(m.len(), 2);
    assert_eq!(m.get("a"), Some(&3));
    assert!(m.contains_key("b"));
    assert!(!m.contains_key("c"));
    assert_eq!(m.key_at(0), "a");
    assert_eq!(*m.value_at(0), 3);
    assert_eq!(m.key_at(1), "b");
}

#[test]
fn composition_table_basics() {
    let mut t = CompositionTable::new();
    t.insert("f", "g", "h");
    t.insert("f", "g", "k");
    t.insert("g", "f", "h");
    assert_eq!(t.len(), 2);
    assert_eq!(t.get("f", "g"), Some(&"k".to_string()));
    assert!(t.get("g", "g").is_none());
    let (a, b, c) = t.entry_at(1);
    assert_eq!((a.as_str(), b.as_str(), c.as_str()), ("g", "f", "h"));
}

#[test]
fn identity_laws_survive_new_objects() {
    let mut cat = Category::new("Test");
    cat.add_morphism(Morphism::new("h", "X", "Y"));
    cat.compose("h", "id_X", "h");
    assert!(cat.verify_identity_laws());
    cat.add_object("Z");
    assert!(cat.verify_identity_laws());
}

#[test]
fn every_arrow_runs_between_objects() {
    let mut cat = Category::new("C");
    cat.add_morphism(Morphism::new("f", "A", "C"));
    cat.add_morphism(Morphism::new("g", "B", "C"));
    cat.compose("f", "id_A", "f2");
    pullback(&mut cat, "f", "g", "P").unwrap();
    pushout(&mut cat, "id_C", "id_C", "Q").unwrap();
    for m in &cat.morphisms {
        assert!(cat.objects.contains(&m.source));
        assert!(cat.objects.contains(&m.target));
    }
    for o in &cat.objects {
        let id = cat.identity(o).unwrap();
        assert_eq!(id.id, format!("id_{}", o));
        assert!(cat.morphisms.contains(id));
    }
    let mut seen = cat.objects.clone();
    seen.sort();
    seen.dedup();
    assert_eq!(seen.len(), cat.objects.len());
}
