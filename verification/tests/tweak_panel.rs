use runt_core::float::{Vec2, F32};
use runt_core::input::{Edges, Input, Key, Level, LiveTouch, Touch};
use runt_core::reflect::{Field, FieldRange, Node, Scalar};
use runt_core::tweak::{install, register_resource, Reach, Target, TweakField, TweakValue, World};
use runt_core::tweak_panel::{can_step, carry_out, decide, draw, panel_input, Action, Pace, Paint, Row, Shade, TweakPanel};

const MARGIN: f32 = 12.0;
const WIDTH: f32 = 340.0;
const PAD: f32 = 6.0;
const DRAG_SPAN: f32 = 480.0;

fn row_pitch() -> f32 {
    18.0
}

fn f(v: f32) -> F32 {
    F32(v.to_bits())
}

fn float(v: f32) -> TweakValue {
    TweakValue::Float(f(v))
}

fn field(path: &str, root: usize, value: TweakValue) -> TweakField {
    TweakField {
        path: path.to_string(),
        root,
        label: path.split_once('.').map(|(_, r)| r.to_string()).unwrap_or_default(),
        value,
        range: FieldRange::new(f(0.0), f(10.0)),
        choices: Vec::new(),
        overridden: false,
    }
}

fn fields() -> Vec<TweakField> {
    vec![
        field("sky.clouds", 0, float(2.0)),
        field("sky.lit", 0, TweakValue::Bool(false)),
        field("cam.steps", 1, TweakValue::Int(3)),
    ]
}

fn tick(pressed: &[Key], held: &[Key]) -> Input {
    let zero = Vec2 { x: F32(0), y: F32(0) };
    let mut keys = Vec::new();
    for key in pressed {
        keys.push((*key, Edges { pressed: true, released: false, held: true }));
    }
    for key in held {
        keys.push((*key, Edges { pressed: false, released: false, held: true }));
    }
    Input {
        keys,
        buttons: Vec::new(),
        mouse_delta: zero,
        wheel: F32(0),
        drive: Level { dir: zero, changed: false },
        pad: Vec::new(),
        sticks: Vec::new(),
        triggers: Vec::new(),
        started: Vec::new(),
        live: Vec::new(),
        ended: Vec::new(),
    }
}

fn finger(id: u64, x: f32, y: f32) -> Touch {
    Touch { id, pos: Vec2 { x: f(x), y: f(y) } }
}

fn down(id: u64, x: f32, y: f32) -> Input {
    let touch = finger(id, x, y);
    let mut input = tick(&[], &[]);
    input.started.push(touch);
    input.live.push(LiveTouch { touch, moved: false });
    input
}

fn dragged(id: u64, x: f32, y: f32) -> Input {
    let mut input = tick(&[], &[]);
    input.live.push(LiveTouch { touch: finger(id, x, y), moved: true });
    input
}

fn lifted(id: u64, x: f32, y: f32) -> Input {
    let mut input = tick(&[], &[]);
    input.ended.push(finger(id, x, y));
    input
}

/// The line of the list that a `y` is on, as the hit test has it.
fn line_of(y: F32) -> Option<usize> {
    let pitch = row_pitch();
    let row = ((f32::from_bits(y.0) - (MARGIN + PAD + pitch)) / pitch).floor();
    if row < 0.0 {
        None
    } else {
        Some(row as usize)
    }
}

fn run(panel: &mut TweakPanel, fields: &Vec<TweakField>, input: &Input) -> Option<Action> {
    let lines = input.started.iter().map(|t| line_of(t.pos.y)).collect();
    decide(panel, fields, input, &lines, |to: F32, from: F32| {
        !((f32::from_bits(to.0) - f32::from_bits(from.0)).abs() < 1.0)
    })
}

/// The value that an edit ends in, arithmetic done.
fn settle(action: Option<Action>) -> Option<(String, TweakValue)> {
    match action? {
        Action::Put(path, value) => Some((path, value)),
        Action::Nudge { path, value, range, up, pace } => {
            let step = if f32::from_bits(range.step.0) > 0.0 {
                f32::from_bits(range.step.0)
            } else {
                ((f32::from_bits(range.max.0) - f32::from_bits(range.min.0)) / 100.0).abs()
            };
            let delta = if up { 1 } else { -1 } as f32;
            let scale = match pace {
                Pace::One => 1.0,
                Pace::Coarse => 10.0,
                Pace::Fine => 0.1,
            };
            Some((path, float(f32::from_bits(value.0) + delta * step * scale)))
        }
        Action::Sweep { path, start, from, to, range, whole } => {
            let span = f32::from_bits(range.max.0) - f32::from_bits(range.min.0);
            let moved = f32::from_bits(to.0) - f32::from_bits(from.0);
            let want = f32::from_bits(start.0) + (moved / DRAG_SPAN) * span;
            Some((path, if whole { TweakValue::Int(want.round() as i64) } else { float(want) }))
        }
        Action::Reset(_) => None,
    }
}

fn decimals(fields: &[TweakField]) -> Vec<String> {
    fields
        .iter()
        .map(|field| match field.value {
            TweakValue::Float(v) => format!("{:.3}", f32::from_bits(v.0)),
            _ => String::new(),
        })
        .collect()
}

fn open() -> TweakPanel {
    let mut panel = TweakPanel::new();
    panel.open = true;
    panel
}

#[test]
fn a_closed_panel_has_no_rows_and_draws_nothing() {
    let mut panel = TweakPanel::new();
    let fields = fields();
    assert!(draw(&mut panel, &fields, &decimals(&fields), true, 30, 0).is_empty(), "a closed panel is not a pass");
    panel.toggle();
    assert!(draw(&mut panel, &fields, &decimals(&fields), false, 30, 0).is_empty(), "no screen, no pass");
    assert!(draw(&mut panel, &Vec::new(), &Vec::new(), true, 30, 0).is_empty(), "no rows, no box");
    assert!(!draw(&mut panel, &fields, &decimals(&fields), true, 30, 0).is_empty());
}

#[test]
fn the_rows_are_a_header_per_root_and_folding_removes_its_fields() {
    let mut panel = TweakPanel::new();
    let fields = fields();
    assert_eq!(
        panel.rows(&fields),
        vec![Row::Group(0), Row::Field(0), Row::Field(1), Row::Group(1), Row::Field(2)]
    );
    panel.set_collapsed(0, true);
    assert_eq!(
        panel.rows(&fields),
        vec![Row::Group(0), Row::Group(1), Row::Field(2)],
        "a folded group keeps its header and loses its fields"
    );
}

#[test]
fn the_cursor_wraps_and_survives_the_list_shrinking_under_it() {
    let mut panel = open();
    let all = fields();
    run(&mut panel, &all, &tick(&[Key::Down], &[]));
    assert_eq!(panel.cursor(), 1);
    let mut panel_top = open();
    run(&mut panel_top, &all, &tick(&[Key::Up], &[]));
    assert_eq!(panel_top.cursor(), 4);
    run(&mut panel_top, &all, &tick(&[Key::Down], &[]));
    assert_eq!(panel_top.cursor(), 0);

    panel.cursor = 4;
    let shorter = vec![field("sky.clouds", 0, float(2.0))];
    run(&mut panel, &shorter, &tick(&[], &[]));
    assert_eq!(panel.cursor(), 1);

    run(&mut panel, &Vec::new(), &tick(&[], &[]));
    assert_eq!(panel.cursor(), 0);
}

#[test]
fn arrows_step_a_number_and_the_modifiers_scale_the_step() {
    let mut panel = open();
    let fields = fields();
    panel.cursor = 1; // sky.clouds

    let plus = run(&mut panel, &fields, &tick(&[Key::Right], &[]));
    assert_eq!(settle(plus), Some(("sky.clouds".into(), float(2.1))));

    let coarse = run(&mut panel, &fields, &tick(&[Key::Right], &[Key::Shift]));
    assert_eq!(settle(coarse), Some(("sky.clouds".into(), float(3.0))), "shift is ten steps");

    let fine = run(&mut panel, &fields, &tick(&[Key::Left], &[Key::Ctrl]));
    let Some((_, TweakValue::Float(v))) = settle(fine) else {
        panic!("ctrl+left produced no edit");
    };
    let v = f32::from_bits(v.0);
    assert!((v - 1.99).abs() < 1e-5, "{v} is not a tenth of a step down");

    assert_eq!(run(&mut panel, &fields, &tick(&[Key::Left, Key::Right], &[])), None, "both arrows cancel");
}

#[test]
fn enter_toggles_a_bool_and_does_nothing_to_a_number() {
    let mut panel = open();
    let fields = fields();
    panel.cursor = 2; // sky.lit
    assert_eq!(
        run(&mut panel, &fields, &tick(&[Key::Enter], &[])),
        Some(Action::Put("sky.lit".into(), TweakValue::Bool(true)))
    );
    assert_eq!(run(&mut panel, &fields, &tick(&[Key::Right], &[])), None, "a bool has no next");
    panel.cursor = 1; // sky.clouds — a float has no "activate"
    assert_eq!(run(&mut panel, &fields, &tick(&[Key::Enter], &[])), None);
}

#[test]
fn enter_on_a_header_folds_it_and_backspace_on_a_field_resets_it() {
    let mut panel = open();
    let fields = fields();
    panel.cursor = 0; // the `sky` header
    run(&mut panel, &fields, &tick(&[Key::Enter], &[]));
    assert!(panel.is_collapsed(0));
    run(&mut panel, &fields, &tick(&[Key::Enter], &[]));
    assert!(!panel.is_collapsed(0));

    panel.cursor = 1;
    assert_eq!(run(&mut panel, &fields, &tick(&[Key::R], &[])), Some(Action::Reset("sky.clouds".into())));
    panel.cursor = 1;
    run(&mut panel, &fields, &tick(&[Key::Tab], &[]));
    assert!(panel.is_collapsed(0));
}

#[test]
fn an_integer_steps_by_one_however_small_the_step_is() {
    let mut panel = open();
    let fields = fields();
    panel.cursor = 4; // cam.steps
    assert_eq!(
        run(&mut panel, &fields, &tick(&[Key::Right], &[Key::Ctrl])),
        Some(Action::Put("cam.steps".into(), TweakValue::Int(4))),
        "a tenth of a step on an integer is still one"
    );
    assert_eq!(
        run(&mut panel, &fields, &tick(&[Key::Left], &[])),
        Some(Action::Put("cam.steps".into(), TweakValue::Int(2)))
    );
}

#[test]
fn left_steps_down_however_small_the_step_is() {
    for bits in 1..8u32 {
        let mut tiny = field("cam.steps", 0, TweakValue::Int(3));
        tiny.range.step = F32(bits);
        let mut panel = open();
        panel.cursor = 1;
        assert_eq!(
            run(&mut panel, &vec![tiny], &tick(&[Key::Left], &[Key::Ctrl])),
            Some(Action::Put("cam.steps".into(), TweakValue::Int(2))),
            "{bits}"
        );
    }
}

#[test]
fn a_number_at_the_end_is_in_the_way_of_a_step_only() {
    let mut panel = open();
    panel.cursor = 1;
    let fields = vec![field("cam.steps", 0, TweakValue::Int(i64::MAX))];
    assert!(!can_step(&panel, &fields, &tick(&[Key::Right], &[]), &vec![]));
    assert!(can_step(&panel, &fields, &tick(&[Key::Left], &[]), &vec![]));
    assert!(can_step(&panel, &fields, &tick(&[], &[]), &vec![]));
    assert!(can_step(&panel, &fields, &tick(&[Key::Right, Key::R], &[]), &vec![]));
    assert_eq!(
        run(&mut panel, &fields, &tick(&[Key::Right, Key::R], &[])),
        Some(Action::Reset("cam.steps".into()))
    );
    panel.cursor = 0;
    assert!(can_step(&panel, &fields, &tick(&[Key::Right], &[]), &vec![]));
}

#[test]
fn enums_go_round_in_both_directions() {
    let mut mode = field("cam.mode", 0, TweakValue::Choice("Fast".into()));
    mode.choices = vec!["Off".into(), "Slow".into(), "Fast".into()];
    let all = vec![mode];
    let mut panel = open();
    panel.cursor = 1;
    let picked = |action| match settle(action) {
        Some((_, TweakValue::Choice(name))) => name,
        _ => panic!("no choice"),
    };
    assert_eq!(picked(run(&mut panel, &all, &tick(&[Key::Enter], &[]))), "Off");
    assert_eq!(picked(run(&mut panel, &all, &tick(&[Key::Left], &[]))), "Slow");
    assert_eq!(picked(run(&mut panel, &all, &tick(&[Key::Right], &[]))), "Off");
    let bare = vec![field("cam.mode", 0, TweakValue::Choice("Gone".into()))];
    assert_eq!(run(&mut panel, &bare, &tick(&[Key::Enter], &[])), None, "no choices, no next");
    assert_eq!(run(&mut panel, &bare, &tick(&[Key::Right], &[])), None);
}

#[test]
fn tweak_panel_a_tap_selects_the_row_and_a_drag_sweeps_its_value() {
    let mut panel = open();
    let fields = fields();
    let y = MARGIN + PAD + row_pitch() * 2.0 + 1.0;
    assert_eq!(run(&mut panel, &fields, &down(7, 40.0, y)), None, "a tap only selects");
    assert_eq!(panel.cursor(), 1);

    run(&mut panel, &fields, &down(7, 40.0, y));
    let Some((path, TweakValue::Float(v))) =
        settle(run(&mut panel, &fields, &dragged(7, 40.0 + DRAG_SPAN * 0.25, y)))
    else {
        panic!("the drag produced no edit");
    };
    assert_eq!(path, "sky.clouds");
    let v = f32::from_bits(v.0);
    assert!((v - (2.0 + 2.5)).abs() < 1e-4, "{v}");

    assert_eq!(run(&mut panel, &fields, &lifted(7, 400.0, y)), None);
    assert_eq!(run(&mut panel, &fields, &dragged(7, 400.0, y)), None, "a lift ends it");
}

#[test]
fn a_drag_of_a_whole_number_is_rounded_and_one_of_a_bool_is_nothing() {
    let mut panel = open();
    let fields = fields();
    let y = MARGIN + PAD + row_pitch() * 5.0 + 1.0; // cam.steps
    run(&mut panel, &fields, &down(1, 40.0, y));
    assert_eq!(panel.cursor(), 4);
    assert_eq!(
        settle(run(&mut panel, &fields, &dragged(1, 40.0 + DRAG_SPAN * 0.26, y))),
        Some(("cam.steps".into(), TweakValue::Int(6)))
    );
    let y = MARGIN + PAD + row_pitch() * 3.0 + 1.0; // sky.lit
    run(&mut panel, &fields, &down(2, 40.0, y));
    assert_eq!(run(&mut panel, &fields, &dragged(2, 240.0, y)), None);
}

#[test]
fn a_list_taller_than_the_screen_scrolls_and_the_hit_test_scrolls_with_it() {
    let mut panel = open();
    let fields: Vec<TweakField> = (0..40).map(|i| field(&format!("sky.f{i}"), 0, float(0.0))).collect();
    // Room for seven lines, the title's among them.
    let max_rows = 6;
    panel.cursor = fields.len();
    let painted = draw(&mut panel, &fields, &decimals(&fields), true, max_rows, 0);
    assert!(!painted.is_empty(), "a panel taller than the screen drew nothing");
    assert!(panel.scroll() > 0, "the window never scrolled");
    assert_eq!(panel.scroll(), 35);

    let y = MARGIN + PAD + row_pitch() + 1.0;
    let first_visible = panel.scroll();
    run(&mut panel, &fields, &down(3, MARGIN + 20.0, y));
    assert_eq!(panel.cursor(), first_visible);
}

#[test]
fn a_touch_outside_the_panel_is_not_the_panels() {
    let mut panel = open();
    let fields = fields();
    let y = MARGIN + PAD + row_pitch() * 2.0 + 1.0;
    run(&mut panel, &fields, &down(1, MARGIN + WIDTH + 40.0, y));
    assert_eq!(panel.cursor(), 0, "the cursor moved for somebody else's tap");
    run(&mut panel, &fields, &down(1, MARGIN - 1.0, y));
    assert_eq!(panel.cursor(), 0);
    run(&mut panel, &fields, &down(1, MARGIN, MARGIN));
    assert_eq!(panel.cursor(), 0, "the title is no row");
    run(&mut panel, &fields, &down(1, MARGIN + WIDTH, y));
    assert_eq!(panel.cursor(), 1, "the edge belongs to the panel");
}

#[test]
fn what_is_painted_is_a_title_and_the_rows() {
    let mut panel = open();
    let mut all = fields();
    all[0].overridden = true;
    panel.set_collapsed(1, true);
    panel.cursor = 1;
    let painted = draw(&mut panel, &all, &decimals(&all), true, 30, 3);
    assert_eq!(
        painted,
        vec![
            Paint::Frame { lines: 5 },
            Paint::Label { line: 0, indent: false, text: "TWEAKS  (3 changed)".into(), shade: Shade::Dim },
            Paint::Label { line: 1, indent: false, text: "v sky".into(), shade: Shade::Text },
            Paint::Cursor { line: 2 },
            Paint::Label { line: 2, indent: true, text: "clouds".into(), shade: Shade::Overridden },
            Paint::Value { line: 2, text: "2".into(), shade: Shade::Overridden },
            Paint::Bar { line: 2, value: f(2.0), range: all[0].range },
            Paint::Label { line: 3, indent: true, text: "lit".into(), shade: Shade::Text },
            Paint::Value { line: 3, text: "off".into(), shade: Shade::Text },
            Paint::Label { line: 4, indent: false, text: "> cam".into(), shade: Shade::Text },
        ]
    );
    let painted = draw(&mut panel, &all, &decimals(&all), true, 30, 0);
    assert_eq!(painted[1], Paint::Label { line: 0, indent: false, text: "TWEAKS".into(), shade: Shade::Dim });
}

#[test]
fn the_panel_edits_the_world_it_is_shown() {
    let value = Node::Struct(vec![Field {
        name: "lit".to_string(),
        range: None,
        value: Node::Leaf(Scalar::Bool(false)),
    }]);
    let mut world = World {
        targets: vec![Target { reach: Reach::Resource(1), value }],
        tweakables: None,
        overrides: None,
    };
    install(&mut world);
    register_resource(&mut world, "sky".to_string(), 1);
    let mut panel = TweakPanel::new();
    let input = tick(&[Key::Down, Key::Enter], &[]);
    let never = |_: F32, _: F32| false;
    assert_eq!(panel_input(&mut panel, &world, Some(&input), &Vec::new(), never), None, "closed");
    assert_eq!(panel.cursor(), 0);
    panel.set_open(true);
    assert_eq!(panel_input(&mut panel, &world, None, &Vec::new(), never), None, "no input");
    let Some(Action::Put(path, value)) = panel_input(&mut panel, &world, Some(&input), &Vec::new(), never) else {
        panic!("no edit");
    };
    carry_out(&mut world, &path, Some(value));
    let read = |world: &World| world.tweakables.as_ref().expect("roots").get(world, "sky.lit");
    assert_eq!(read(&world), Some(TweakValue::Bool(true)));
    carry_out(&mut world, &path, None);
    assert_eq!(read(&world), Some(TweakValue::Bool(false)));
    carry_out(&mut world, "gone", None);
}
