use mandlebrot::layers::{make_implementors, Layer, LayerImplementation, LayerRange, LayerType, Layers, PositionRange};

type L = Layer<u8, ()>;

fn layer(t: LayerType<u8>, r: LayerRange) -> L {
    Layer::new(t, r, ())
}

fn names(s: &Layers<u8, ()>) -> Vec<String> {
    s.layers.iter().map(|l| l.name.clone()).collect()
}

#[test]
fn range_applies_and_covers() {
    assert!(LayerRange::InSet.layer_applies(true));
    assert!(!LayerRange::InSet.layer_applies(false));
    assert!(LayerRange::Both.layer_applies(false));
    assert!(LayerRange::OutSet.layer_covered(false, true));
    assert!(!LayerRange::Both.layer_covered(true, false));
    assert_eq!(LayerRange::get_variants(), vec![LayerRange::InSet, LayerRange::OutSet, LayerRange::Both]);
    assert_eq!(LayerRange::OutSet.get_string(), "Out Set");
}

#[test]
fn layer_types() {
    let trap: LayerType<u8> = LayerType::ShadingOrbitTrap(4);
    assert!(trap.shading_layer());
    assert!(trap.is_orbit_trap());
    assert_eq!(trap.get_orbit_trap(), Ok(&4));
    assert_eq!(LayerType::<u8>::Colour.get_orbit_trap(), Err("not a trap"));
    assert_eq!(LayerType::<u8>::Shading3D.get_string(), "Shading 3D");
    assert!(LayerType::<u8>::ColourOrbitTrap(1).eq(&LayerType::ColourOrbitTrap(2)));
    assert!(!LayerType::<u8>::Colour.eq(&LayerType::Shading));
}

#[test]
fn new_layer_is_unconstrained() {
    let l = layer(LayerType::Colour, LayerRange::Both);
    assert_eq!(l.name, "Layer");
    assert!(l.range_constraints.is_none());
    assert!(l.position_constraint.is_none());
    assert!(l.range_allowed(LayerRange::InSet));
    assert!(l.position_allowed(7));
    assert!(l.can_delete());
}

#[test]
fn checking_layer_stacks() {
    assert_eq!(Layers::<u8, ()>::valid_layers(&vec![]), Err("there must be at least 1 layer"));
    assert_eq!(
        Layers::valid_layers(&vec![layer(LayerType::Shading, LayerRange::Both)]),
        Err("the first layer can't be a shading layer")
    );
    assert_eq!(
        Layers::valid_layers(&vec![layer(LayerType::Colour, LayerRange::InSet), layer(LayerType::Shading, LayerRange::OutSet)]),
        Err("Shading layer exists that isn't covered by another layer")
    );
    assert_eq!(
        Layers::valid_layers(&vec![layer(LayerType::Colour, LayerRange::Both), layer(LayerType::Shading, LayerRange::Both)]),
        Ok(true)
    );
}

fn colour_and_shading() -> Layers<u8, ()> {
    let v = vec![layer(LayerType::Colour, LayerRange::Both), layer(LayerType::Shading, LayerRange::Both)];
    assert!(Layers::valid_layers(&v).is_ok());
    Layers::new(v)
}

#[test]
fn new_stack_names_and_constraints() {
    let s = colour_and_shading();
    assert_eq!(names(&s), vec!["Layer 1", "Layer 2"]);
    assert!(!s.arb_precision);
    assert_eq!(s.layers[0].range_constraints, Some(vec![LayerRange::InSet, LayerRange::OutSet]));
    assert_eq!(s.layers[1].range_constraints, None);
    assert_eq!(s.layers[0].position_constraint, Some(PositionRange { start: 0, end: 2 }));
    assert_eq!(s.layers[1].position_constraint, Some(PositionRange { start: 1, end: 3 }));
    assert_eq!(s.implementors, vec![LayerImplementation::ColourImplemetor]);
    assert_eq!(s.implementor_map, vec![0, 0]);
}

#[test]
fn constrained_layers_refuse_edits() {
    let s = colour_and_shading();
    let first = &s.layers[0];
    assert!(first.range_allowed(LayerRange::Both));
    assert!(!first.range_allowed(LayerRange::InSet));
    assert!(!first.can_delete());
    assert!(!first.can_change_type(&LayerType::Shading));
    assert!(first.can_change_type(&LayerType::ColourOrbitTrap(1)));
    let second = &s.layers[1];
    assert!(second.can_delete());
    assert!(second.position_allowed(1));
    assert!(!second.position_allowed(0));
    assert!(!second.position_allowed(3));
}

#[test]
fn lone_layer_keeps_both_parts_coloured() {
    let s = Layers::new(vec![layer(LayerType::Colour, LayerRange::Both)]);
    assert_eq!(s.layers[0].range_constraints, Some(vec![LayerRange::OutSet]));
    assert!(s.layers[0].range_allowed(LayerRange::Both));
    assert!(s.layers[0].range_allowed(LayerRange::OutSet));
    assert!(!s.layers[0].range_allowed(LayerRange::InSet));
}

#[test]
fn adding_a_layer() {
    let mut s = Layers::new(vec![layer(LayerType::Colour, LayerRange::Both)]);
    let mut pushed = s.layers.clone();
    pushed.push(layer(LayerType::Shading, LayerRange::OutSet));
    assert!(Layers::valid_layers(&pushed).is_ok());
    s.add_layer(layer(LayerType::Shading, LayerRange::OutSet));
    assert_eq!(names(&s), vec!["Layer 1", "Layer 2"]);
    assert_eq!(s.layers[0].range_constraints, Some(vec![LayerRange::OutSet]));
    assert_eq!(s.layers[1].position_constraint, Some(PositionRange { start: 1, end: 3 }));
    assert_eq!(s.implementor_map, vec![0, 0]);
}

#[test]
fn changing_a_layer_type() {
    let mut s = colour_and_shading();
    s.change_layer_type(0, LayerType::Shading);
    assert!(matches!(s.layers[0].layer_type, LayerType::Colour));
    s.change_layer_type(1, LayerType::Shading3D);
    assert!(matches!(s.layers[1].layer_type, LayerType::Shading3D));
    assert_eq!(s.implementors, vec![LayerImplementation::ColourImplemetor, LayerImplementation::Shading3DImplementor]);
    assert_eq!(s.implementor_map, vec![0, 1]);
}

#[test]
fn change_kept_when_the_stack_stays_usable() {
    let mut s = Layers::new(vec![
        layer(LayerType::Colour, LayerRange::Both),
        layer(LayerType::Colour, LayerRange::Both),
        layer(LayerType::Shading, LayerRange::Both),
    ]);
    assert!(s.layers[1].range_constraints.is_none());
    s.change_layer_type(1, LayerType::Shading);
    assert!(matches!(s.layers[1].layer_type, LayerType::Shading));
    assert!(Layers::valid_layers(&s.layers).is_ok());
}

#[test]
fn change_refused_when_it_breaks_the_stack() {
    let mut s = Layers::new(vec![
        layer(LayerType::Colour, LayerRange::Both),
        layer(LayerType::Colour, LayerRange::Both),
        layer(LayerType::Shading, LayerRange::Both),
    ]);
    // the first layer may change type, but a shading layer cannot come first
    assert!(s.layers[0].can_change_type(&LayerType::Shading));
    s.change_layer_type(0, LayerType::Shading);
    assert!(matches!(s.layers[0].layer_type, LayerType::Colour));
    assert!(Layers::valid_layers(&s.layers).is_ok());
}

#[test]
fn orbit_traps_get_their_own_calculation() {
    let v = vec![
        layer(LayerType::ColourOrbitTrap(1), LayerRange::Both),
        layer(LayerType::Colour, LayerRange::Both),
        layer(LayerType::ShadingOrbitTrap(2), LayerRange::Both),
        layer(LayerType::Shading, LayerRange::Both),
    ];
    let (imps, map) = make_implementors(&v);
    assert_eq!(
        imps,
        vec![
            LayerImplementation::OrbitTrapImplementor(0),
            LayerImplementation::ColourImplemetor,
            LayerImplementation::OrbitTrapImplementor(2),
        ]
    );
    assert_eq!(map, vec![0, 1, 2, 1]);
}

#[test]
fn reordering_is_undone_by_the_reverse_move() {
    let mut s = Layers::new(vec![
        layer(LayerType::Colour, LayerRange::Both),
        layer(LayerType::Colour, LayerRange::InSet),
        layer(LayerType::Shading, LayerRange::Both),
    ]);
    let before = names(&s);
    s.reorder_layer(0, 2);
    assert_eq!(names(&s), vec!["Layer 2", "Layer 3", "Layer 1"]);
    s.reorder_layer(2, 0);
    assert_eq!(names(&s), before);
}

#[test]
fn deleting_a_shading_layer_keeps_the_stack_usable() {
    let mut s = colour_and_shading();
    assert!(s.layers[1].can_delete());
    s.delete_layer(1);
    assert_eq!(names(&s), vec!["Layer 1"]);
    assert!(Layers::valid_layers(&s.layers).is_ok());
    assert_eq!(s.implementors, vec![LayerImplementation::ColourImplemetor]);
    assert_eq!(s.implementor_map, vec![0]);
}

#[test]
fn placing_constraints_twice_changes_nothing() {
    let mut v = vec![
        layer(LayerType::Colour, LayerRange::InSet),
        layer(LayerType::Colour, LayerRange::OutSet),
        layer(LayerType::Shading, LayerRange::Both),
    ];
    Layers::place_constraints(&mut v);
    let once: Vec<_> = v.iter().map(|l| (l.range_constraints.clone(), l.position_constraint)).collect();
    Layers::place_constraints(&mut v);
    let twice: Vec<_> = v.iter().map(|l| (l.range_constraints.clone(), l.position_constraint)).collect();
    assert_eq!(once, twice);
}

#[test]
fn range_change_sets_the_range() {
    let mut l = layer(LayerType::Colour, LayerRange::Both);
    l.change_range(LayerRange::OutSet);
    assert_eq!(l.layer_range, LayerRange::OutSet);
}

#[test]
fn allowed_range_changes_keep_colouring_layers_usable() {
    let mut s = Layers::new(vec![
        layer(LayerType::Colour, LayerRange::InSet),
        layer(LayerType::Colour, LayerRange::OutSet),
        layer(LayerType::Shading, LayerRange::Both),
    ]);
    assert_eq!(s.layers[0].range_constraints, Some(vec![LayerRange::InSet]));
    assert!(s.layers[0].range_allowed(LayerRange::Both));
    assert!(!s.layers[0].range_allowed(LayerRange::OutSet));
    for i in 0..2 {
        for r in LayerRange::get_variants() {
            if s.layers[i].range_allowed(r) {
                let mut t = s.layers.clone();
                t[i].change_range(r);
                assert!(Layers::valid_layers(&t).is_ok());
            }
        }
    }
    s.layers[0].change_range(LayerRange::OutSet);
    assert_eq!(s.layers[0].layer_range, LayerRange::InSet);
    s.layers[0].change_range(LayerRange::Both);
    assert_eq!(s.layers[0].layer_range, LayerRange::Both);
}

#[test]
fn a_held_shading_layer_stays_on_its_part() {
    let s = Layers::new(vec![layer(LayerType::Colour, LayerRange::OutSet), layer(LayerType::Shading, LayerRange::OutSet)]);
    assert_eq!(s.layers[1].range_constraints, Some(vec![LayerRange::OutSet]));
    assert!(s.layers[1].range_allowed(LayerRange::OutSet));
    assert!(!s.layers[1].range_allowed(LayerRange::InSet));
    assert!(!s.layers[1].range_allowed(LayerRange::Both));
    let mut t = s.layers.clone();
    t[1].change_range(LayerRange::InSet);
    assert_eq!(t[1].layer_range, LayerRange::OutSet);
    assert!(Layers::valid_layers(&t).is_ok());
}

#[test]
fn a_held_inside_shading_layer_stays_inside() {
    let s = Layers::new(vec![layer(LayerType::Colour, LayerRange::InSet), layer(LayerType::Shading, LayerRange::InSet)]);
    assert_eq!(s.layers[1].range_constraints, Some(vec![LayerRange::InSet]));
    assert!(s.layers[1].range_allowed(LayerRange::InSet));
    assert!(!s.layers[1].range_allowed(LayerRange::OutSet));
    assert!(!s.layers[1].range_allowed(LayerRange::Both));
}

#[test]
fn a_free_shading_layer_may_be_switched_above_its_colours() {
    let s = Layers::new(vec![
        layer(LayerType::Colour, LayerRange::OutSet),
        layer(LayerType::Shading, LayerRange::OutSet),
        layer(LayerType::Colour, LayerRange::InSet),
    ]);
    assert_eq!(s.layers[1].range_constraints, None);
    let mut t = s.layers.clone();
    t[1].change_range(LayerRange::InSet);
    assert_eq!(t[1].layer_range, LayerRange::InSet);
    assert!(Layers::valid_layers(&t).is_err());
}

#[test]
fn placed_positions_hold_every_layer_where_it_is() {
    let stacks = vec![
        vec![layer(LayerType::Colour, LayerRange::Both), layer(LayerType::Shading, LayerRange::InSet), layer(LayerType::Shading, LayerRange::OutSet)],
        vec![layer(LayerType::Colour, LayerRange::OutSet), layer(LayerType::Colour, LayerRange::InSet), layer(LayerType::Shading3D, LayerRange::Both)],
        vec![layer(LayerType::Colour, LayerRange::InSet), layer(LayerType::Colour, LayerRange::OutSet), layer(LayerType::Shading, LayerRange::OutSet), layer(LayerType::Colour, LayerRange::Both)],
    ];
    for v in stacks {
        let s = Layers::new(v);
        for (i, l) in s.layers.iter().enumerate() {
            assert!(l.position_allowed(i));
            if l.layer_type.shading_layer() {
                assert!(!l.position_allowed(0));
            }
        }
    }
}

#[test]
fn adding_keeps_the_stack_usable() {
    let mut s = colour_and_shading();
    let mut pushed = s.layers.clone();
    pushed.push(layer(LayerType::Shading3D, LayerRange::Both));
    assert!(Layers::valid_layers(&pushed).is_ok());
    s.add_layer(layer(LayerType::Shading3D, LayerRange::Both));
    assert!(Layers::valid_layers(&s.layers).is_ok());
    assert_eq!(names(&s), vec!["Layer 1", "Layer 2", "Layer 3"]);
}
