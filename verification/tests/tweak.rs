use runt_core::float::F32;
use runt_core::paths::PathMap;
use runt_core::reflect::{Field, FieldRange, Node, Scalar, Variant, VariantField};
use runt_core::tweak::{
    clear, clear_all, fields_of, install, register_component, register_resource, set_and_record, Reach, Target,
    TweakError, TweakField, TweakOverrides, TweakValue, Tweakables, World, MAX_FIELDS_PER_ROOT,
};

const RIG: u64 = 1;
const KNOB: u64 = 2;

fn f(v: f32) -> F32 {
    F32(v.to_bits())
}

fn float(v: f32) -> TweakValue {
    TweakValue::Float(f(v))
}

fn choice(name: &str) -> TweakValue {
    TweakValue::Choice(name.to_string())
}

fn range(min: f32, max: f32) -> FieldRange {
    FieldRange::new(f(min), f(max))
}

fn field(name: &str, range: Option<FieldRange>, value: Node) -> Field {
    Field { name: name.to_string(), range, value }
}

fn leaf(v: f32) -> Node {
    Node::Leaf(Scalar::Float(f(v)))
}

fn vec3(x: f32, y: f32, z: f32) -> Node {
    Node::Struct(vec![field("x", None, leaf(x)), field("y", None, leaf(y)), field("z", None, leaf(z))])
}

fn mode(current: &str) -> Node {
    let variants = ["Off", "Slow", "Fast"]
        .iter()
        .map(|name| Variant { name: name.to_string(), unit: true, fields: vec![] })
        .collect();
    Node::Enum { variants, current: current.to_string() }
}

fn rig() -> Node {
    Node::Struct(vec![
        field("follow_stiffness", Some(range(0.0, 20.0).with_step(f(0.5))), leaf(10.0)),
        field("enabled", None, Node::Leaf(Scalar::Bool(true))),
        field("mode", None, mode("Slow")),
        // The composite whose range its leaves inherit.
        field(
            "nested",
            Some(range(-2.0, 2.0)),
            Node::Struct(vec![
                field("gain", Some(range(0.0, 1.0)), leaf(0.5)),
                field("count", None, Node::Leaf(Scalar::U32(4))),
            ]),
        ),
        field("color", Some(range(0.0, 1.0)), vec3(0.2, 0.4, 0.6)),
    ])
}

fn empty_world() -> World {
    World { targets: Vec::new(), tweakables: None, overrides: None }
}

fn rig_world() -> World {
    let mut world = empty_world();
    world.targets.push(Target { reach: Reach::Resource(RIG), value: rig() });
    install(&mut world);
    register_resource(&mut world, "rig".to_string(), RIG);
    world
}

fn read(world: &World, path: &str) -> Option<TweakValue> {
    tweaks(world).get(world, path)
}

fn tweaks(world: &World) -> &Tweakables {
    world.tweakables.as_ref().expect("tweakables")
}

fn overrides(world: &World) -> &TweakOverrides {
    world.overrides.as_ref().expect("overrides")
}

fn paths(world: &World) -> Vec<String> {
    fields_of(world).into_iter().map(|f| f.path).collect()
}

fn values(world: &World) -> Vec<(String, TweakValue)> {
    fields_of(world).into_iter().map(|f| (f.path, f.value)).collect()
}

#[test]
fn registering_a_root_enumerates_its_leaves_as_dotted_paths() {
    let world = rig_world();
    assert_eq!(
        paths(&world),
        vec![
            "rig.follow_stiffness",
            "rig.enabled",
            "rig.mode",
            "rig.nested.gain",
            "rig.nested.count",
            "rig.color.x",
            "rig.color.y",
            "rig.color.z",
        ]
    );
    let labels: Vec<String> = fields_of(&world).into_iter().map(|f| f.label).collect();
    assert_eq!(labels[0], "follow_stiffness");
    assert_eq!(labels[5], "color.x");
}

#[test]
fn a_range_is_read_off_the_param_and_inherited_by_nested_leaves() {
    let world = rig_world();
    let fields = fields_of(&world);
    let by_path = |path: &str| -> &TweakField {
        fields.iter().find(|f| f.path == path).unwrap_or_else(|| panic!("no {path}"))
    };

    let stiffness = by_path("rig.follow_stiffness");
    assert_eq!(stiffness.range, range(0.0, 20.0).with_step(f(0.5)));
    assert_eq!(stiffness.step(f(0.2)), f(0.5), "a declared step is the arrow's value");

    assert_eq!(by_path("rig.nested.gain").range, range(0.0, 1.0));
    assert_eq!(by_path("rig.nested.count").range, range(-2.0, 2.0));
    for axis in ["x", "y", "z"] {
        assert_eq!(
            by_path(&format!("rig.color.{axis}")).range,
            range(0.0, 1.0),
            "{axis} did not inherit the colour's range"
        );
    }
    // An undeclared step is a hundredth for a float and one for the rest.
    assert_eq!(by_path("rig.nested.gain").step(f(0.01)), f(0.01));
    assert_eq!(by_path("rig.nested.count").step(f(0.04)), f(1.0));
    // An enum that declares nothing runs over the places of its variants.
    let mode = by_path("rig.mode");
    assert_eq!(mode.range, range(0.0, 2.0).with_step(f(1.0)));
    assert_eq!(mode.choices, vec!["Off", "Slow", "Fast"]);
}

#[test]
fn an_edit_lands_in_the_live_world_and_is_clamped_at_the_range() {
    let mut world = rig_world();
    let landed = set_and_record(&mut world, "rig.follow_stiffness", float(4.5)).expect("set");
    assert_eq!(landed, float(4.5));
    assert_eq!(read(&world, "rig.follow_stiffness"), Some(float(4.5)));
    assert_eq!(read(&world, "rig.nope"), None);

    let high = set_and_record(&mut world, "rig.follow_stiffness", float(1e9));
    assert_eq!(high, Ok(float(20.0)));
    assert_eq!(read(&world, "rig.follow_stiffness"), Some(float(20.0)));
    let low = set_and_record(&mut world, "rig.follow_stiffness", float(-50.0));
    assert_eq!(low, Ok(float(0.0)));

    assert_eq!(overrides(&world).values.get("rig.follow_stiffness"), Some(&float(0.0)));
}

#[test]
fn bools_ints_and_unit_enums_all_edit() {
    let mut world = rig_world();
    set_and_record(&mut world, "rig.enabled", TweakValue::Bool(false)).expect("bool");
    assert_eq!(read(&world, "rig.enabled"), Some(TweakValue::Bool(false)));

    set_and_record(&mut world, "rig.nested.count", TweakValue::Int(2)).expect("int");
    assert_eq!(read(&world, "rig.nested.count"), Some(TweakValue::Int(2)));
    set_and_record(&mut world, "rig.nested.count", TweakValue::Int(-9)).expect("int");
    assert_eq!(read(&world, "rig.nested.count"), Some(TweakValue::Int(0)));

    set_and_record(&mut world, "rig.mode", choice("Fast")).expect("enum");
    assert_eq!(read(&world, "rig.mode"), Some(choice("Fast")));
    assert_eq!(
        set_and_record(&mut world, "rig.mode", choice("Sideways")),
        Err(TweakError::WrongKind),
        "a variant the enum does not have is refused, not guessed"
    );
}

#[test]
fn the_wrong_kind_and_the_wrong_path_are_errors_rather_than_writes() {
    let mut world = rig_world();
    assert_eq!(set_and_record(&mut world, "rig.enabled", float(1.0)), Err(TweakError::WrongKind));
    assert_eq!(set_and_record(&mut world, "rig.nope", float(1.0)), Err(TweakError::NoSuchPath));
    assert_eq!(set_and_record(&mut world, "nope.field", float(1.0)), Err(TweakError::NoSuchPath));
    assert_eq!(set_and_record(&mut world, "", float(1.0)), Err(TweakError::NoSuchPath));
    assert_eq!(values(&world), values(&rig_world()), "nothing moved");
    assert_eq!(TweakError::NoSuchPath.message(), "no such tweakable");
    assert_eq!(TweakError::RootAbsent.message(), "the root is not in the world");
    assert_eq!(TweakError::WrongKind.message(), "the value is the wrong kind for that field");
}

#[test]
fn recorded_overrides_apply_to_a_fresh_world() {
    let mut world = rig_world();
    set_and_record(&mut world, "rig.follow_stiffness", float(3.25)).expect("set");
    set_and_record(&mut world, "rig.enabled", TweakValue::Bool(false)).expect("set");
    set_and_record(&mut world, "rig.mode", choice("Fast")).expect("set");

    let mut fresh = rig_world();
    assert_eq!(read(&fresh, "rig.follow_stiffness"), Some(float(10.0)));
    assert_eq!(overrides(&world).apply(&mut fresh), 3);
    assert_eq!(values(&fresh), values(&world));
    assert_eq!(read(&fresh, "rig.follow_stiffness"), Some(float(3.25)));
    assert_eq!(read(&fresh, "rig.enabled"), Some(TweakValue::Bool(false)));
    assert_eq!(read(&fresh, "rig.mode"), Some(choice("Fast")));
}

#[test]
fn an_override_for_a_field_that_no_longer_exists_is_dropped_and_kept() {
    let mut world = rig_world();
    let mut overrides = TweakOverrides::new();
    overrides.values.insert("rig.follow_stiffness".into(), float(7.0));
    overrides.values.insert("rig.renamed_away".into(), float(7.0));
    overrides.values.insert("gone.entirely".into(), TweakValue::Bool(true));

    assert_eq!(overrides.apply(&mut world), 1, "only the live one lands");
    assert_eq!(read(&world, "rig.follow_stiffness"), Some(float(7.0)));
    assert_eq!(overrides.len(), 3);
}

#[test]
fn clearing_restores_the_value_the_world_was_registered_with() {
    let mut world = rig_world();
    let mut loaded = TweakOverrides::new();
    loaded.values.insert("rig.follow_stiffness".into(), float(1.0));
    loaded.apply(&mut world);
    world.overrides = Some(loaded);
    assert_eq!(read(&world, "rig.follow_stiffness"), Some(float(1.0)));

    set_and_record(&mut world, "rig.follow_stiffness", float(9.0)).expect("set");
    assert_eq!(read(&world, "rig.follow_stiffness"), Some(float(9.0)));

    let restored = clear(&mut world, "rig.follow_stiffness").expect("clear");
    assert_eq!(restored, Some(float(10.0)));
    assert_eq!(read(&world, "rig.follow_stiffness"), Some(float(10.0)));
    assert!(overrides(&world).is_empty(), "the override outlived the value it described");
}

#[test]
fn clear_all_puts_every_root_back() {
    let mut world = rig_world();
    set_and_record(&mut world, "rig.follow_stiffness", float(1.0)).expect("set");
    set_and_record(&mut world, "rig.color.y", float(1.0)).expect("set");
    assert_eq!(clear_all(&mut world), 2);
    assert_eq!(values(&world), values(&rig_world()));
    assert!(overrides(&world).is_empty());
}

#[test]
fn a_component_root_reaches_one_named_entity() {
    let knob = |amount: f32| Node::Struct(vec![field("amount", None, leaf(amount))]);
    let mut world = empty_world();
    install(&mut world);
    let (a, b) = (7, 8);
    world.targets.push(Target { reach: Reach::Component { kind: KNOB, entity: a }, value: knob(1.0) });
    world.targets.push(Target { reach: Reach::Component { kind: KNOB, entity: b }, value: knob(2.0) });
    register_component(&mut world, "knob".to_string(), KNOB, a);

    assert_eq!(paths(&world), vec!["knob.amount"]);
    set_and_record(&mut world, "knob.amount", float(5.0)).expect("set");
    let amount = |target: &Target| match &target.value {
        Node::Struct(fields) => match fields[0].value {
            Node::Leaf(Scalar::Float(v)) => f32::from_bits(v.0),
            _ => panic!("no float"),
        },
        _ => panic!("no struct"),
    };
    assert_eq!(amount(&world.targets[0]), 5.0);
    assert_eq!(
        amount(&world.targets[1]),
        2.0,
        "a root names one entity, not every entity with the component"
    );

    // The entity going away is a panel with fewer rows, not a panic.
    world.targets.remove(0);
    assert!(paths(&world).is_empty());
    assert_eq!(set_and_record(&mut world, "knob.amount", float(1.0)), Err(TweakError::RootAbsent));
}

#[test]
fn a_duplicate_root_name_is_refused() {
    let mut world = rig_world();
    register_resource(&mut world, "rig".to_string(), RIG);
    assert_eq!(tweaks(&world).roots().len(), 1);
}

#[test]
fn a_world_without_install_simply_has_no_tunables() {
    let mut world = empty_world();
    assert!(fields_of(&world).is_empty());
    assert_eq!(TweakOverrides::new().apply(&mut world), 0);
    assert_eq!(set_and_record(&mut world, "rig.enabled", TweakValue::Bool(true)), Err(TweakError::RootAbsent));
    assert_eq!(clear(&mut world, "rig.enabled"), Err(TweakError::RootAbsent));
    assert_eq!(clear_all(&mut world), 0);
}

#[test]
fn a_root_registered_before_its_value_has_nothing_to_go_back_to() {
    let mut world = empty_world();
    register_resource(&mut world, "rig".to_string(), RIG);
    world.targets.push(Target { reach: Reach::Resource(RIG), value: rig() });
    set_and_record(&mut world, "rig.enabled", TweakValue::Bool(false)).expect("set");
    assert_eq!(tweaks(&world).authored("rig.enabled"), None);
    assert_eq!(clear(&mut world, "rig.enabled"), Ok(None));
    assert_eq!(read(&world, "rig.enabled"), Some(TweakValue::Bool(false)));
    assert!(overrides(&world).is_empty());
}

fn only(value: Node) -> World {
    let mut world = empty_world();
    world.targets.push(Target {
        reach: Reach::Resource(RIG),
        value: Node::TupleStruct(vec![field("", None, value)]),
    });
    install(&mut world);
    register_resource(&mut world, "it".to_string(), RIG);
    world
}

#[test]
fn integers_saturate_in_their_own_width() {
    let wide = Some(range(-1e30, 1e30));
    let at = |value: Scalar, v: i64| {
        let mut world = empty_world();
        world.targets.push(Target {
            reach: Reach::Resource(RIG),
            value: Node::TupleStruct(vec![field("", wide, Node::Leaf(value))]),
        });
        install(&mut world);
        register_resource(&mut world, "it".to_string(), RIG);
        set_and_record(&mut world, "it.0", TweakValue::Int(v))
    };
    assert_eq!(at(Scalar::U8(0), 300), Ok(TweakValue::Int(255)));
    assert_eq!(at(Scalar::U8(0), -1), Ok(TweakValue::Int(0)));
    assert_eq!(at(Scalar::U32(0), i64::MAX), Ok(TweakValue::Int(u32::MAX as i64)));
    assert_eq!(at(Scalar::I32(0), i64::MIN), Ok(TweakValue::Int(i32::MIN as i64)));
    assert_eq!(at(Scalar::U64(0), i64::MAX), Ok(TweakValue::Int(i64::MAX)));
    assert_eq!(at(Scalar::Usize(0), -5), Ok(TweakValue::Int(0)));
    assert_eq!(at(Scalar::I64(0), 9007199254740993), Ok(TweakValue::Int(9007199254740992)));
    assert_eq!(at(Scalar::Bool(true), 1), Err(TweakError::WrongKind));
}

#[test]
fn unannotated_leaves_fall_back_to_their_kind() {
    let ends = |value: Scalar| {
        let range = fields_of(&only(Node::Leaf(value)))[0].range;
        (f32::from_bits(range.min.0), f32::from_bits(range.max.0), f32::from_bits(range.step.0))
    };
    assert_eq!(ends(Scalar::Float(f(0.0))), (-100.0, 100.0, 0.0));
    assert_eq!(ends(Scalar::Bool(true)), (0.0, 1.0, 1.0));
    assert_eq!(ends(Scalar::U8(1)), (0.0, 256.0, 1.0));
    assert_eq!(ends(Scalar::I32(1)), (-256.0, 256.0, 1.0));
}

#[test]
fn a_number_goes_by_any_spelling_of_its_place() {
    let mut world = only(leaf(1.0));
    assert_eq!(paths(&world), vec!["it.0"]);
    assert_eq!(read(&world, "it.+0"), Some(float(1.0)));
    assert_eq!(read(&world, "it..00."), Some(float(1.0)));
    assert_eq!(read(&world, "it.1"), None);
    assert_eq!(read(&world, "it.-0"), None);
    assert_eq!(read(&world, "it.99999999999999999999999"), None);
    assert_eq!(set_and_record(&mut world, "it", float(2.0)), Err(TweakError::WrongKind));
    // A number that is none lands at the bottom of the range.
    assert_eq!(set_and_record(&mut world, "it.0", float(f32::NAN)), Ok(float(-100.0)));
}

#[test]
fn data_enums_and_opaque_values_are_skipped() {
    let mut world = empty_world();
    let variants = vec![
        Variant { name: "None".to_string(), unit: true, fields: vec![] },
        Variant { name: "Some".to_string(), unit: false, fields: vec![] },
    ];
    world.targets.push(Target {
        reach: Reach::Resource(RIG),
        value: Node::Struct(vec![
            field("tint", None, Node::Enum { variants, current: "None".to_string() }),
            field("label", None, Node::Opaque),
        ]),
    });
    install(&mut world);
    register_resource(&mut world, "it".to_string(), RIG);
    assert!(paths(&world).is_empty());
    assert_eq!(read(&world, "it.tint"), None);
    assert_eq!(set_and_record(&mut world, "it.tint", choice("Some")), Err(TweakError::WrongKind));
    assert_eq!(set_and_record(&mut world, "it.tint", choice("None")), Err(TweakError::WrongKind));
}

#[test]
fn a_root_contributes_so_many_leaves_and_no_more() {
    let mut world = empty_world();
    let fields = (0..600).map(|_| field("", None, leaf(0.0))).collect();
    world.targets.push(Target { reach: Reach::Resource(RIG), value: Node::TupleStruct(fields) });
    install(&mut world);
    register_resource(&mut world, "it".to_string(), RIG);
    let listed = paths(&world);
    assert_eq!(listed.len(), MAX_FIELDS_PER_ROOT);
    assert_eq!(listed[511], "it.511");
    // The authored snapshot has them all.
    assert_eq!(tweaks(&world).authored("it.599"), Some(&float(0.0)));
}

#[test]
fn the_walk_stops_at_its_depth() {
    let deep = |levels: usize| {
        let mut node = leaf(1.0);
        for _ in 0..levels {
            node = Node::Struct(vec![field("a", None, node)]);
        }
        let mut world = empty_world();
        world.targets.push(Target { reach: Reach::Resource(RIG), value: node });
        install(&mut world);
        register_resource(&mut world, "it".to_string(), RIG);
        paths(&world).len()
    };
    assert_eq!(deep(8), 1);
    assert_eq!(deep(9), 0);
}

#[test]
fn values_print_as_a_panel_shows_them() {
    let show = |v: f32| float(v).display(&format!("{v:.3}"));
    assert_eq!(show(10.0), "10");
    assert_eq!(show(0.25), "0.25");
    assert_eq!(show(0.0), "0");
    assert_eq!(show(-0.0), "-0");
    assert_eq!(float(0.0).display(".000"), "0");
    assert_eq!(float(0.0).display("-.000"), "0");
    assert_eq!(TweakValue::Bool(true).display(""), "on");
    assert_eq!(TweakValue::Bool(false).display(""), "off");
    assert_eq!(TweakValue::Int(-42).display(""), "-42");
    assert_eq!(TweakValue::Int(i64::MIN).display(""), "-9223372036854775808");
    assert_eq!(choice("Fast").display(""), "Fast");
}

#[test]
fn a_path_map_is_kept_in_order() {
    let mut map: PathMap<TweakValue> = PathMap::new();
    for path in ["b", "a.b", "a", "a.a", "ab", "é", "Z"] {
        map.insert(path.to_string(), TweakValue::Bool(true));
    }
    map.insert("ab".to_string(), TweakValue::Bool(false));
    let keys: Vec<String> = (0..map.len()).map(|i| map.key(i).to_string()).collect();
    let mut sorted = keys.clone();
    sorted.sort();
    assert_eq!(keys, sorted);
    assert_eq!(keys.len(), 7);
    assert_eq!(map.get("ab"), Some(&TweakValue::Bool(false)));
    assert!(map.contains_key("é"));
    map.remove("é");
    map.remove("never");
    assert!(!map.contains_key("é"));
    assert_eq!(map.len(), 6);
}

#[test]
fn a_declared_range_is_looked_up_by_name() {
    let node = rig();
    assert_eq!(FieldRange::lookup(&node, &"color".to_string()), Some(range(0.0, 1.0)));
    assert_eq!(FieldRange::lookup(&node, &"enabled".to_string()), None);
    assert_eq!(FieldRange::lookup(&node, &"nope".to_string()), None);
    assert_eq!(FieldRange::lookup(&leaf(1.0), &"x".to_string()), None);
    assert_eq!(range(0.0, 1.0).clamp(f(3.0)), f(1.0));
}

#[test]
fn a_variants_range_is_looked_up_like_a_structs() {
    let named = |name: &str, range| VariantField { name: name.to_string(), range };
    let node = Node::Enum {
        variants: vec![
            Variant { name: "Empty".to_string(), unit: true, fields: vec![] },
            Variant {
                name: "Sphere".to_string(),
                unit: false,
                fields: vec![named("radius", Some(range(0.5, 4.0))), named("segments", None)],
            },
            Variant { name: "Ring".to_string(), unit: false, fields: vec![named("radius", Some(range(1.0, 9.0)))] },
        ],
        current: "Empty".to_string(),
    };
    assert_eq!(FieldRange::lookup(&node, &"radius".to_string()), Some(range(0.5, 4.0)));
    assert_eq!(FieldRange::lookup(&node, &"segments".to_string()), None);
    assert_eq!(FieldRange::lookup(&node, &"height".to_string()), None);
}
