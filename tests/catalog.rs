use spacefort::template::{
    dig_speed, get_color, init_creatures, init_materials, movement_speed, ProtoCreature, ProtoMaterial,
    TemplateError, WHITE_BITS,
};

fn base(name: &str, id: u16) -> ProtoMaterial {
    ProtoMaterial {
        name: name.to_string(),
        id,
        template: None,
        texture: None,
        diggable: Some(true),
        passable: Some(false),
        color: Some([1, 2, 3, 4]),
        alt: Some(10),
    }
}

fn child(name: &str, id: u16, template: &str) -> ProtoMaterial {
    ProtoMaterial {
        name: name.to_string(),
        id,
        template: Some(template.to_string()),
        texture: None,
        diggable: None,
        passable: None,
        color: None,
        alt: None,
    }
}

#[test]
fn template_fields_are_inherited_and_overridden() {
    let mut granite = child("granite", 2, "stone");
    granite.passable = Some(true);
    granite.texture = Some("granite.png".to_string());
    let protos = vec![granite, base("stone", 1)];
    let cat = init_materials(&protos).unwrap();
    assert_eq!(cat.len(), 2);
    let g = &cat[&2];
    assert_eq!(g.name, "granite");
    assert_eq!(g.id, 2);
    assert!(g.diggable);
    assert!(g.passable);
    assert_eq!(g.color, [1, 2, 3, 4]);
    assert_eq!(g.alt, 10);
    assert_eq!(g.texture, Some("granite.png".to_string()));
    let s = &cat[&1];
    assert_eq!(s.name, "stone");
    assert!(!s.passable);
    assert_eq!(s.texture, None);
}

#[test]
fn chained_templates_resolve() {
    let protos = vec![child("c", 3, "b"), child("b", 2, "a"), base("a", 1)];
    let cat = init_materials(&protos).unwrap();
    assert_eq!(cat[&3].alt, 10);
    assert_eq!(cat[&3].name, "c");
}

#[test]
fn missing_field_is_an_error() {
    let mut p = base("stone", 1);
    p.alt = None;
    assert_eq!(init_materials(&vec![p]), Err(TemplateError::MissingField("stone".to_string())));
}

#[test]
fn unknown_template_is_an_error() {
    let protos = vec![base("a", 1), child("b", 2, "nowhere")];
    assert_eq!(init_materials(&protos), Err(TemplateError::UnknownTemplate("nowhere".to_string())));
}

#[test]
fn cyclic_templates_are_an_error() {
    let protos = vec![child("a", 1, "b"), child("b", 2, "a")];
    assert!(matches!(init_materials(&protos), Err(TemplateError::CyclicTemplate(_))));
    let selfish = vec![child("a", 1, "a")];
    assert!(matches!(init_materials(&selfish), Err(TemplateError::CyclicTemplate(_))));
}

#[test]
fn empty_catalog() {
    assert_eq!(init_materials(&vec![]).unwrap().len(), 0);
}

fn creature(name: &str, id: u16, template: Option<&str>, speed: Option<i32>) -> ProtoCreature {
    ProtoCreature {
        name: name.to_string(),
        id,
        template: template.map(|t| t.to_string()),
        texture: None,
        dig_speed: if template.is_none() { Some(30) } else { None },
        movement_speed: speed,
        color: if template.is_none() { Some([7, 7, 7, 7]) } else { None },
        alt: if template.is_none() { Some(0) } else { None },
    }
}

#[test]
fn creature_lookups() {
    let protos = vec![creature("dwarf", 1, None, Some(5)), creature("fast dwarf", 2, Some("dwarf"), Some(2))];
    let types = init_creatures(&protos).unwrap();
    assert_eq!(movement_speed(&1, &types), 5);
    assert_eq!(movement_speed(&2, &types), 2);
    assert_eq!(dig_speed(&2, &types), 30);
    assert_eq!(dig_speed(&9, &types), 0);
    assert_eq!(movement_speed(&9, &types), 0);
    assert_eq!(get_color(&2, &types), [7, 7, 7, 7]);
    assert_eq!(get_color(&9, &types), WHITE_BITS);
}
