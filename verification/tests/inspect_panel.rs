use runt_core::float::{Vec2, Vec3, F32, F64};
use runt_core::input::{Edges, Input, Key, Level, LiveTouch, Touch};
use runt_core::inspect_panel::{
    can_step, decide, draw, Edit, FieldPath, InspectPanel, Origin, Paint, PanelNav, Place, Row, Widget,
};
use runt_core::reflect::FieldRange;

const MARGIN: f32 = 12.0;
const WIDTH: f32 = 340.0;
const PAD: f32 = 6.0;
const DRAG_SPAN: f32 = 480.0;
const PITCH: f32 = 18.0;

fn f(v: f32) -> F32 {
    F32(v.to_bits())
}

fn val(v: F32) -> f32 {
    f32::from_bits(v.0)
}

fn panel_left() -> f32 {
    1280.0 - MARGIN - WIDTH
}

fn place() -> Place {
    Place { known: true, left: f(panel_left()), right: f(panel_left() + WIDTH) }
}

fn row(depth: usize, label: &str, path: FieldPath, widget: Widget) -> Row {
    Row { depth, label: label.to_string(), path, widget }
}

fn at(label: &str) -> FieldPath {
    FieldPath::root().field(label)
}

fn range() -> FieldRange {
    FieldRange::new(f(0.0), f(10.0))
}

fn float(label: &str, value: f64) -> Row {
    row(1, label, at(label), Widget::Float { value: F64(value.to_bits()), range: range() })
}

fn color(label: &str, rgb: [f32; 3]) -> Row {
    row(0, label, at(label), Widget::Color { value: Vec3 { x: f(rgb[0]), y: f(rgb[1]), z: f(rgb[2]) } })
}

fn rows() -> Vec<Row> {
    vec![
        row(
            0,
            "generator",
            FieldPath::root(),
            Widget::Variant {
                selected: "Torus".into(),
                options: vec!["Torus".into(), "Cube".into(), "Plane".into()],
            },
        ),
        float("radius", 2.0),
        row(1, "lit", at("lit"), Widget::Bool { value: false }),
        row(1, "seed", at("seed"), Widget::Seed { value: 42 }),
        row(1, "nested", at("nested"), Widget::Group),
    ]
}

fn tick(pressed: &[Key], held: &[Key]) -> Input {
    let zero = Vec2 { x: F32(0), y: F32(0) };
    let mut keys = Vec::new();
    for key in pressed {
        keys.push((*key, Edges { pressed: true, released: false, held: true }));
    }
    for key in held {
        keys.push((*key, Edges { pressed: false, released: false, held: true }));
    }
    Input {
        keys,
        buttons: Vec::new(),
        mouse_delta: zero,
        wheel: F32(0),
        drive: Level { dir: zero, changed: false },
        pad: Vec::new(),
        sticks: Vec::new(),
        triggers: Vec::new(),
        started: Vec::new(),
        live: Vec::new(),
        ended: Vec::new(),
    }
}

fn finger(id: u64, x: f32, y: f32) -> Touch {
    Touch { id, pos: Vec2 { x: f(x), y: f(y) } }
}

fn line_of(y: F32) -> Option<usize> {
    let row = ((val(y) - (MARGIN + PAD + PITCH)) / PITCH).floor();
    if row < 0.0 {
        None
    } else {
        Some(row as usize)
    }
}

fn run(panel: &mut InspectPanel, rows: &Vec<Row>, nav: PanelNav, input: &Input, place: Place) -> Option<(FieldPath, Edit)> {
    let lines = input.started.iter().map(|t| line_of(t.pos.y)).collect();
    decide(panel, rows, nav, input, &lines, place, |to: F32, from: F32| !((val(to) - val(from)).abs() < 1.0))
}

fn decide_keys(panel: &mut InspectPanel, rows: &Vec<Row>, input: &Input) -> Option<(FieldPath, Edit)> {
    run(panel, rows, PanelNav::from_keys(input), input, place())
}

/// The float that an edit ends in, arithmetic done.
fn settled(edit: &Edit) -> f64 {
    match edit {
        Edit::Nudge { value, range, up, scale } => {
            let step = if val(range.step) > 0.0 {
                val(range.step)
            } else {
                ((val(range.max) - val(range.min)) / 100.0).abs()
            };
            let delta = if *up { 1 } else { -1 } as f32;
            f64::from_bits(value.0) + (delta * step * val(*scale)) as f64
        }
        Edit::Drag { origin, from, to, range, .. } => {
            let start = match origin {
                Origin::Float(v) => f64::from_bits(v.0),
                Origin::Whole(v) => *v as f64,
                Origin::Nothing => 0.0,
            };
            let span = (val(range.max) - val(range.min)) as f64;
            start + ((val(*to) - val(*from)) / DRAG_SPAN) as f64 * span
        }
        _ => panic!("no float"),
    }
}

fn open() -> InspectPanel {
    let mut panel = InspectPanel::new();
    panel.open = true;
    panel
}

#[test]
fn the_cursor_wraps_and_survives_the_tree_shrinking_under_it() {
    let mut panel = open();
    let mut all = rows();
    decide_keys(&mut panel, &all, &tick(&[Key::Up], &[]));
    assert_eq!(panel.cursor(), 4, "up from the top wraps to the bottom");

    all.truncate(2);
    decide_keys(&mut panel, &all, &tick(&[], &[]));
    assert_eq!(panel.cursor(), 1);

    decide_keys(&mut panel, &Vec::new(), &tick(&[], &[]));
    assert_eq!(panel.cursor(), 0, "no rows is not a panic");
}

#[test]
fn arrows_step_a_float_and_the_modifiers_scale_the_step() {
    let mut panel = open();
    let rows = rows();
    panel.cursor = 1; // radius

    let Some((path, edit)) = decide_keys(&mut panel, &rows, &tick(&[Key::Right], &[])) else {
        panic!("right produced no edit");
    };
    assert_eq!(path, at("radius"));
    let v = settled(&edit);
    assert!((v - 2.1).abs() < 1e-6, "{v} is not a hundredth of the range up");

    let Some((_, edit)) = decide_keys(&mut panel, &rows, &tick(&[Key::Left], &[Key::Shift])) else {
        panic!("shift+left produced no edit");
    };
    let v = settled(&edit);
    assert!((v - 1.0).abs() < 1e-5, "{v} is not ten steps down");
    assert_eq!(PanelNav::from_keys(&tick(&[], &[Key::Ctrl])).scale, f(0.1));
    assert_eq!(PanelNav::from_keys(&tick(&[], &[Key::Shift])).scale, f(10.0));
}

#[test]
fn a_nav_built_by_hand_drives_the_panel_with_no_keyboard_at_all() {
    let mut panel = open();
    let rows = rows();
    let quiet = tick(&[], &[]);

    run(&mut panel, &rows, PanelNav { down: true, ..PanelNav::none() }, &quiet, place());
    assert_eq!(panel.cursor(), 1, "radius, one row past the variant");

    let edit = run(&mut panel, &rows, PanelNav { inc: true, ..PanelNav::none() }, &quiet, place());
    let Some((path, edit)) = edit else {
        panic!("a hand-built inc produced no edit");
    };
    assert_eq!(path, at("radius"));
    let v = settled(&edit);
    assert!((v - 2.1).abs() < 1e-6, "{v} is not one step up");

    assert_eq!(
        run(&mut panel, &rows, PanelNav { fold: true, reset: true, ..PanelNav::none() }, &quiet, place()),
        None
    );
}

#[test]
fn enter_toggles_a_bool_and_leaves_a_number_alone() {
    let mut panel = open();
    let rows = rows();
    panel.cursor = 2; // lit
    assert_eq!(decide_keys(&mut panel, &rows, &tick(&[Key::Enter], &[])), Some((at("lit"), Edit::Bool(true))));
    panel.cursor = 1; // radius — a float has no "activate"
    assert_eq!(decide_keys(&mut panel, &rows, &tick(&[Key::Enter], &[])), None);
}

#[test]
fn a_variant_row_cycles_its_options_in_both_directions() {
    let mut panel = open();
    let rows = rows();
    panel.cursor = 0; // the generator select
    assert_eq!(
        decide_keys(&mut panel, &rows, &tick(&[Key::Right], &[])),
        Some((FieldPath::root(), Edit::Variant("Cube".into())))
    );
    assert_eq!(
        decide_keys(&mut panel, &rows, &tick(&[Key::Left], &[])),
        Some((FieldPath::root(), Edit::Variant("Plane".into()))),
        "left from the first option wraps to the last"
    );
    assert_eq!(
        decide_keys(&mut panel, &rows, &tick(&[Key::Enter], &[])),
        Some((FieldPath::root(), Edit::Variant("Cube".into()))),
        "enter is the same verb as right"
    );
}

#[test]
fn enter_on_a_seed_asks_for_a_new_one() {
    let mut panel = open();
    let rows = rows();
    panel.cursor = 3; // seed
    assert_eq!(decide_keys(&mut panel, &rows, &tick(&[Key::Enter], &[])), Some((at("seed"), Edit::Reroll(42))));
}

#[test]
fn a_group_row_is_selectable_and_inert() {
    let mut panel = open();
    let rows = rows();
    panel.cursor = 4; // nested
    for key in [Key::Enter, Key::Right, Key::Left] {
        assert_eq!(decide_keys(&mut panel, &rows, &tick(&[key], &[])), None);
    }
}

#[test]
fn a_color_row_is_selectable_and_inert() {
    let mut panel = open();
    let rows = vec![color("tint", [0.2, 0.4, 0.8])];
    panel.cursor = 0;
    for key in [Key::Enter, Key::Right, Key::Left] {
        assert_eq!(decide_keys(&mut panel, &rows, &tick(&[key], &[])), None);
    }
}

#[test]
fn inspect_panel_a_tap_selects_the_row_and_a_drag_sweeps_its_value() {
    let mut panel = open();
    let rows = rows();
    let y = MARGIN + PAD + PITCH * 2.0 + 1.0;
    let x = panel_left() + 20.0;

    let mut down = tick(&[], &[]);
    down.started.push(finger(7, x, y));
    down.live.push(LiveTouch { touch: finger(7, x, y), moved: false });
    assert_eq!(decide_keys(&mut panel, &rows, &down), None, "a tap only selects");
    assert_eq!(panel.cursor(), 1);

    let mut moved = tick(&[], &[]);
    moved.live.push(LiveTouch { touch: finger(7, x + DRAG_SPAN * 0.25, y), moved: true });
    let Some((path, edit)) = decide_keys(&mut panel, &rows, &moved) else {
        panic!("the drag produced no edit");
    };
    assert_eq!(path, at("radius"));
    let v = settled(&edit);
    assert!((v - 4.5).abs() < 1e-4, "{v}");

    let mut up = tick(&[], &[]);
    up.ended.push(finger(7, 400.0, y));
    assert_eq!(decide_keys(&mut panel, &rows, &up), None);
    assert_eq!(decide_keys(&mut panel, &rows, &moved), None, "a lift ends it");
}

#[test]
fn a_touch_at_the_tweak_panels_edge_is_not_this_panels() {
    let mut panel = open();
    let rows = rows();
    let y = MARGIN + PAD + PITCH * 2.0 + 1.0;
    let mut input = tick(&[], &[]);
    input.started.push(finger(1, MARGIN + 20.0, y));
    decide_keys(&mut panel, &rows, &input);
    assert_eq!(panel.cursor(), 0, "the cursor moved for somebody else's tap");
    // Nor does any finger count before the screen is known.
    let mut input = tick(&[], &[]);
    input.started.push(finger(1, panel_left() + 20.0, y));
    run(&mut panel, &rows, PanelNav::none(), &input, Place { known: false, ..place() });
    assert_eq!(panel.cursor(), 0);
}

#[test]
fn a_sweep_is_of_numbers_and_its_rest_stays_on_the_row() {
    let mut panel = open();
    let mut all = rows();
    all.push(row(1, "count", at("count"), Widget::Int { value: 3, range: range() }));
    let quiet = tick(&[], &[]);
    let push = PanelNav { sweep: f(0.5), ..PanelNav::none() };
    panel.cursor = 5;
    panel.sweep_carry = F64(0.25f64.to_bits());
    assert_eq!(
        run(&mut panel, &all, push, &quiet, place()),
        Some((at("count"), Edit::Glide { value: Origin::Whole(3), range: range(), amount: f(0.5) }))
    );
    assert_eq!(panel.sweep_carry, F64(0.25f64.to_bits()), "a sweep keeps what it earned");
    run(&mut panel, &all, PanelNav { up: true, ..push }, &quiet, place());
    assert_eq!(panel.sweep_carry, F64(0), "moving off abandons it");
    panel.sweep_carry = F64(0.25f64.to_bits());
    run(&mut panel, &all, PanelNav::none(), &quiet, place());
    assert_eq!(panel.sweep_carry, F64(0), "and so does letting go");
    panel.cursor = 2;
    assert_eq!(run(&mut panel, &all, push, &quiet, place()), None, "a bool does not sweep");
    panel.cursor = 1;
    assert!(run(&mut panel, &all, push, &quiet, place()).is_some());
    panel.cursor = 5;
    assert_eq!(
        run(&mut panel, &all, PanelNav { dec: true, ..PanelNav::none() }, &quiet, place()),
        Some((at("count"), Edit::Int(2)))
    );
}

fn texts(rows: &[Row]) -> Vec<String> {
    rows.iter()
        .map(|row| match row.widget {
            Widget::Float { value, .. } => format!("{:.3}", f64::from_bits(value.0) as f32),
            _ => String::new(),
        })
        .collect()
}

#[test]
fn a_closed_panel_and_an_empty_selection_both_draw_nothing() {
    let mut panel = InspectPanel::new();
    let rows = rows();
    assert!(draw(&mut panel, &rows, &texts(&rows), true, 30, "TORUS", true).is_empty(), "a closed panel is not a pass");
    panel.toggle();
    assert!(draw(&mut panel, &Vec::new(), &Vec::new(), true, 30, "TORUS", true).is_empty(), "no selection is an absent panel");
    assert!(draw(&mut panel, &rows, &texts(&rows), false, 30, "TORUS", true).is_empty());
    assert!(!draw(&mut panel, &rows, &texts(&rows), true, 30, "TORUS", true).is_empty(), "an open panel with rows draws");
}

#[test]
fn an_out_of_range_or_nan_channel_draws_a_finite_swatch_not_a_panic() {
    let mut panel = open();
    let rows = vec![color("blown", [5.0, -2.0, f32::NAN])];
    let painted = draw(&mut panel, &rows, &texts(&rows), true, 30, "MATERIAL", true);
    assert!(!painted.is_empty(), "the rim and the swatch still draw");
    let Some(Paint::Swatch { color, .. }) = painted.last() else {
        panic!("no swatch");
    };
    assert_eq!([val(color.x), val(color.y), val(color.z)], [1.0, 0.0, 0.0]);
}

#[test]
fn a_selection_is_painted_row_by_row() {
    let mut panel = open();
    let mut all = rows();
    all.push(row(2, "odd", at("odd"), Widget::Unsupported));
    panel.cursor = 3;
    let painted = draw(&mut panel, &all, &texts(&all), true, 30, "TORUS", true);
    assert_eq!(painted[0], Paint::Frame { lines: 7 });
    assert_eq!(painted[1], Paint::Title { text: "TORUS".into() });
    assert_eq!(painted[2], Paint::Label { line: 1, depth: 0, text: "generator".into(), dim: false });
    assert_eq!(painted[3], Paint::Value { line: 1, text: "< Torus >".into(), dim: false });
    assert_eq!(painted[5], Paint::Value { line: 2, text: "2".into(), dim: false });
    assert_eq!(
        painted[6],
        Paint::Bar { line: 2, value: Origin::Float(F64(2.0f64.to_bits())), range: range() }
    );
    assert_eq!(painted[8], Paint::Value { line: 3, text: "off".into(), dim: false });
    assert_eq!(painted[9], Paint::Cursor { line: 4 });
    assert_eq!(painted[11], Paint::Value { line: 4, text: "0000002a".into(), dim: false });
    assert_eq!(painted[12], Paint::Label { line: 5, depth: 1, text: "nested".into(), dim: true });
    assert_eq!(painted[14], Paint::Value { line: 6, text: "-".into(), dim: true });
    // A panel without the verbs hides its cursor, and the list scrolls to it.
    panel.cursor = 5;
    let painted = draw(&mut panel, &all, &texts(&all), true, 2, "TORUS", false);
    assert_eq!(panel.scroll(), 4);
    assert!(!painted.iter().any(|p| matches!(p, Paint::Cursor { .. })));
    let deep = vec![row(0, "s", at("s"), Widget::Seed { value: 0x1234_5678_9abc_def0 })];
    let painted = draw(&mut panel, &deep, &texts(&deep), true, 2, "X", false);
    assert_eq!(painted[3], Paint::Value { line: 1, text: "9abcdef0".into(), dim: false });
}

#[test]
fn a_whole_number_at_its_end_steps_one_way_only() {
    let rows = vec![row(0, "last", at("last"), Widget::Int { value: i64::MAX, range: range() })];
    let quiet = tick(&[], &[]);
    let mut panel = InspectPanel::new();
    let may = |panel: &InspectPanel, nav: PanelNav| can_step(panel, &rows, nav, &quiet, &vec![], place());
    let up = PanelNav { inc: true, ..PanelNav::none() };
    let down = PanelNav { dec: true, ..PanelNav::none() };
    assert!(!may(&panel, up));
    assert!(may(&panel, down));
    assert!(may(&panel, PanelNav::none()));
    assert!(may(&panel, PanelNav { activate: true, ..up }));
    assert_eq!(run(&mut panel, &rows, PanelNav::none(), &quiet, place()), None);
    assert!(run(&mut panel, &rows, down, &quiet, place()).is_some());
}
