use munera::catalog::Catalog;
use munera::ecs::{CompKind, CompRecord, EntId, NameComp, ParentComp, Registry, register_comp_type,
    attr_absent_after_remove, attr_present_after_add, attr_copy_out_restore};

#[test]
fn ent_basics() {
    let mut reg = Registry::new();
    let ent = reg.new_ent();
    assert!(reg.has_ent(&ent));
    reg.add_comp(&ent, CompRecord::Name(NameComp::new("Skibadee")));
    assert!(reg.has_comp(&ent, CompKind::Name));
    if let Some(comp) = reg.get_comp(&ent, CompKind::Name) {
        match comp {
            CompRecord::Name(n) => assert!(n.0 == "Skibadee"),
            _ => assert!(false),
        }
    } else {
        assert!(false);
    }
    reg.del_comp(&ent, CompKind::Name);
    assert!(!reg.has_comp(&ent, CompKind::Name));
    assert!(reg.get_comp(&ent, CompKind::Name).is_none());
    reg.add_comp(&ent, CompRecord::Name(NameComp::new("Skibadanger")));
    assert!(reg.has_comp(&ent, CompKind::Name));
    assert!(reg.get_comp(&ent, CompKind::Name).is_some());
    reg.del_ent(&ent);
    assert!(!reg.has_ent(&ent));
    assert!(!reg.has_comp(&ent, CompKind::Name));
    assert!(reg.get_comp(&ent, CompKind::Name).is_none());
}

#[test]
fn comp_type_registration() {
    let mut cat: Catalog<CompKind> = Catalog::new();
    let registered = register_comp_type::<NameComp>(&mut cat, 7, "NameComp");
    assert!(registered.is_ok());
    let comp_type = cat.find_by_identity(7);
    assert!(comp_type.is_some());
    assert!(comp_type.unwrap().type_identity == 7);
}

#[test]
fn duplicate_registration_rejected() {
    let mut cat: Catalog<CompKind> = Catalog::new();
    assert!(register_comp_type::<NameComp>(&mut cat, 1, "NameComp").is_ok());
    // same display name under a fresh identity
    assert!(register_comp_type::<ParentComp>(&mut cat, 2, "NameComp").is_err());
    // same identity under a fresh display name
    assert!(register_comp_type::<ParentComp>(&mut cat, 1, "ParentComp").is_err());
    // same concrete type under a fresh name and identity
    assert!(register_comp_type::<NameComp>(&mut cat, 3, "AliasComp").is_err());
    // a genuinely fresh type still registers
    assert!(register_comp_type::<ParentComp>(&mut cat, 2, "ParentComp").is_ok());
    assert!(cat.len() == 2);
}

#[test]
fn attribute_table_consistency() {
    let mut cat: Catalog<CompKind> = Catalog::new();
    register_comp_type::<NameComp>(&mut cat, 1, "NameComp").unwrap();
    register_comp_type::<ParentComp>(&mut cat, 2, "ParentComp").unwrap();
    let mut reg = Registry::new();
    let ent = reg.new_ent();
    for i in 0..cat.len() {
        let d = cat.at(i);
        assert!(!d.ent_has(&reg, &ent));
        let added = d.ent_add(&mut reg, &ent);
        assert!(added);
        assert!(d.ent_has(&reg, &ent));
        d.ent_rem(&mut reg, &ent);
        assert!(!d.ent_has(&reg, &ent));
    }
}

#[test]
fn attribute_law_functions() {
    let mut cat: Catalog<CompKind> = Catalog::new();
    register_comp_type::<ParentComp>(&mut cat, 2, "ParentComp").unwrap();
    let mut reg = Registry::new();
    let ent = reg.new_ent();
    let d = cat.at(0);
    assert!(!attr_absent_after_remove(d, &mut reg, &ent));
    assert!(attr_present_after_add(d, &mut reg, &ent));
}

#[test]
fn copy_out_restore_reproduces_value() {
    let mut cat: Catalog<CompKind> = Catalog::new();
    register_comp_type::<NameComp>(&mut cat, 1, "NameComp").unwrap();
    let mut reg = Registry::new();
    let src = reg.new_ent();
    let dst = reg.new_ent();
    reg.add_comp(&src, CompRecord::Name(NameComp::new("hero")));
    let d = cat.at(0);
    attr_copy_out_restore(d, &mut reg, &src, &dst);
    match reg.get_comp(&dst, CompKind::Name) {
        Some(CompRecord::Name(n)) => assert!(n.0 == "hero"),
        _ => assert!(false),
    }
}

#[test]
fn iterator_yields_live_entities() {
    let mut reg = Registry::new();
    let e0 = reg.new_ent();
    let e1 = reg.new_ent();
    let e2 = reg.new_ent();
    assert!(e0.0 == 0 && e1.0 == 1 && e2.0 == 2);
    reg.del_ent(&e1);
    let mut it = reg.iter();
    let first = it.next();
    assert!(first.is_some() && first.unwrap().0 == 0);
    let second = it.next();
    assert!(second.is_some() && second.unwrap().0 == 2);
    assert!(it.next().is_none());
}

#[test]
fn dead_entity_has_nothing() {
    let mut reg = Registry::new();
    let ent = reg.new_ent();
    reg.add_comp(&ent, CompRecord::Parent(ParentComp { parent: -5 }));
    reg.del_ent(&ent);
    assert!(!reg.has_ent(&ent));
    assert!(reg.get_comp(&ent, CompKind::Parent).is_none());
    // the identifier is retired, not reused
    let next = reg.new_ent();
    assert!(next.0 == 1);
    assert!(!reg.has_ent(&EntId(0)));
}

#[test]
fn lib_comp_type_registration() {
    let mut cat: Catalog<CompKind> = Catalog::new();
    register_comp_type::<ParentComp>(&mut cat, 11, "ParentComp").unwrap();
    let mut found_comp_type = false;
    for i in 0..cat.len() {
        if cat.at(i).type_identity == 11 {
            found_comp_type = true;
            break;
        }
    }
    assert!(found_comp_type);
}
