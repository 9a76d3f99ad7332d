//! The overlay that edits the selected value: one row for each widget of it.
//!
//! It keeps no value and knows no world. The rows are handed in each tick; what
//! comes back is the path of a field and an edit of it, in words where the edit
//! takes arithmetic.

use vstd::prelude::*;

use crate::float::{below, clamped, magnitude, same_value, F32, F64, INFINITY_BITS, ONE_BITS, Vec3};
use crate::input::{has_id, is_held, live_touch, was_pressed, Input, Key, Touch};
use crate::reflect::FieldRange;
use crate::text::{hex, joined, signed_decimal, views, write_hex8, write_signed};
use crate::tweak::{shortened, shown, TweakValue, ValueView};
use crate::tweak_panel::{
    cursor_moved, cycle, first_shown, move_cursor, next_choice, row_at, row_on, rows_shown,
};

verus! {

/// The bits of 10: what Shift makes of a step.
pub const COARSE_BITS: u32 = 0x4120_0000;

/// The bits of a tenth: what Ctrl makes of a step.
pub const FINE_BITS: u32 = 0x3dcc_cccd;

/// The path of a field from the selected value down.
#[derive(Debug, PartialEq)]
pub struct FieldPath {
    pub segments: Vec<String>,
}

impl View for FieldPath {
    type V = Seq<Seq<char>>;

    open spec fn view(&self) -> Seq<Seq<char>> {
        views(self.segments@)
    }
}

impl Clone for FieldPath {
    fn clone(&self) -> (r: FieldPath)
        ensures
            r@ == self@,
    {
        let mut segments: Vec<String> = Vec::new();
        let mut i: usize = 0;
        while i < self.segments.len()
            invariant
                i <= self.segments@.len(),
                segments@.len() == i,
                forall|j: int| 0 <= j < i ==> (#[trigger] segments@[j])@ == self.segments@[j]@,
            decreases self.segments@.len() - i,
        {
            segments.push(self.segments[i].clone());
            i = i + 1;
        }
        let r = FieldPath { segments };
        proof {
            assert(r@ =~= self@);
        }
        r
    }
}

impl FieldPath {
    /// The selected value itself.
    pub fn root() -> (r: FieldPath)
        ensures
            r@ == Seq::<Seq<char>>::empty(),
    {
        let r = FieldPath { segments: Vec::new() };
        proof {
            assert(r@ =~= Seq::<Seq<char>>::empty());
        }
        r
    }

    /// A field of what this names.
    pub fn field(&self, name: &str) -> (r: FieldPath)
        ensures
            r@ == self@.push(name@),
    {
        let mut r = self.clone();
        r.segments.push(name.to_owned());
        proof {
            assert(r@ =~= self@.push(name@));
        }
        r
    }
}

/// What a row shows and edits.
#[allow(inconsistent_fields)]
#[derive(Debug)]
pub enum Widget {
    Float { value: F64, range: FieldRange },
    Int { value: i64, range: FieldRange },
    Bool { value: bool },
    /// A seed, which Enter rolls anew.
    Seed { value: u64 },
    Choice { selected: String, options: Vec<String> },
    /// The variant of an enum with data, whose fields are the rows below.
    Variant { selected: String, options: Vec<String> },
    /// Headings: the rows below have the content.
    Vector,
    Color { value: Vec3 },
    Group,
    Unsupported,
}

/// What a widget is.
#[allow(inconsistent_fields)]
pub enum WidgetView {
    Float { value: F64, range: FieldRange },
    Int { value: i64, range: FieldRange },
    Bool { value: bool },
    Seed { value: u64 },
    Choice { selected: Seq<char>, options: Seq<Seq<char>> },
    Variant { selected: Seq<char>, options: Seq<Seq<char>> },
    Vector,
    Color { value: Vec3 },
    Group,
    Unsupported,
}

impl View for Widget {
    type V = WidgetView;

    open spec fn view(&self) -> WidgetView {
        match self {
            Widget::Float { value, range } => WidgetView::Float { value: *value, range: *range },
            Widget::Int { value, range } => WidgetView::Int { value: *value, range: *range },
            Widget::Bool { value } => WidgetView::Bool { value: *value },
            Widget::Seed { value } => WidgetView::Seed { value: *value },
            Widget::Choice { selected, options } => WidgetView::Choice {
                selected: selected@,
                options: views(options@),
            },
            Widget::Variant { selected, options } => WidgetView::Variant {
                selected: selected@,
                options: views(options@),
            },
            Widget::Vector => WidgetView::Vector,
            Widget::Color { value } => WidgetView::Color { value: *value },
            Widget::Group => WidgetView::Group,
            Widget::Unsupported => WidgetView::Unsupported,
        }
    }
}

/// One line of the panel: how deep the widget is nested, its label, the path of
/// its field, and the widget.
#[derive(Debug)]
pub struct Row {
    pub depth: usize,
    pub label: String,
    pub path: FieldPath,
    pub widget: Widget,
}

/// What a row is.
pub struct RowView {
    pub depth: int,
    pub label: Seq<char>,
    pub path: Seq<Seq<char>>,
    pub widget: WidgetView,
}

impl View for Row {
    type V = RowView;

    open spec fn view(&self) -> RowView {
        RowView {
            depth: self.depth as int,
            label: self.label@,
            path: self.path@,
            widget: self.widget@,
        }
    }
}

/// What the rows are.
pub open spec fn row_views(s: Seq<Row>) -> Seq<RowView> {
    Seq::new(s.len(), |i: int| s[i]@)
}

/// The number that a drag began from.
#[derive(Clone, Copy, Debug, PartialEq, Eq, Structural)]
pub enum Origin {
    Float(F64),
    Whole(i64),
    /// The row had no number.
    Nothing,
}

/// What the panel is doing between ticks.
#[derive(Clone, Copy, Debug)]
pub struct InspectPanel {
    /// Whether the panel is up.
    pub open: bool,
    /// Where the cursor is, as a row.
    pub cursor: usize,
    /// The finger that drags a value: which, where it went down, and the value
    /// that it began from.
    pub drag: Option<(u64, F32, Origin)>,
    /// The row that the finger went down on.
    pub touch_row: Option<usize>,
    /// The first row that the last drawn frame put on screen.
    pub scroll: usize,
    /// The part of a unit that a sweep has earned on a whole number and not spent.
    pub sweep_carry: F64,
}

impl InspectPanel {
    /// A closed panel.
    pub fn new() -> (r: InspectPanel)
        ensures
            r == (InspectPanel {
                open: false,
                cursor: 0,
                drag: None,
                touch_row: None,
                scroll: 0,
                sweep_carry: F64(0),
            }),
    {
        InspectPanel {
            open: false,
            cursor: 0,
            drag: None,
            touch_row: None,
            scroll: 0,
            sweep_carry: F64(0),
        }
    }

    /// Open or close. A change forgets the drag.
    pub fn set_open(&mut self, open: bool)
        ensures
            *final(self) == (if old(self).open == open {
                *old(self)
            } else {
                InspectPanel { open, drag: None, touch_row: None, ..*old(self) }
            }),
    {
        if self.open == open {
            return;
        }
        self.open = open;
        self.drag = None;
        self.touch_row = None;
    }

    /// Open where it is closed, and the other way round.
    pub fn toggle(&mut self)
        ensures
            *final(self) == (InspectPanel {
                open: !old(self).open,
                drag: None,
                touch_row: None,
                ..*old(self)
            }),
    {
        let open: bool = !self.open;
        self.set_open(open);
    }

    /// Where the cursor is.
    pub fn cursor(&self) -> (r: usize)
        ensures
            r == self.cursor,
    {
        self.cursor
    }

    /// The first row on screen as of the last frame.
    pub fn scroll(&self) -> (r: usize)
        ensures
            r == self.scroll,
    {
        self.scroll
    }
}

/// What a device said, with the device forgotten.
#[derive(Clone, Copy, Debug, PartialEq, Eq, Structural)]
pub struct PanelNav {
    pub up: bool,
    pub down: bool,
    pub dec: bool,
    pub inc: bool,
    pub activate: bool,
    /// Not read by this panel: it has nothing to fold.
    pub fold: bool,
    /// Not read by this panel: it has nothing to go back to.
    pub reset: bool,
    /// What a step is multiplied by.
    pub scale: F32,
    /// How far a stick is pushed, and which way.
    pub sweep: F32,
}

/// Nothing said.
pub open spec fn silent() -> PanelNav {
    PanelNav {
        up: false,
        down: false,
        dec: false,
        inc: false,
        activate: false,
        fold: false,
        reset: false,
        scale: F32(ONE_BITS),
        sweep: F32(0),
    }
}

/// What the keyboard says.
pub open spec fn keys_say(input: Input) -> PanelNav {
    let keys = input.keys@;
    PanelNav {
        up: was_pressed(keys, Key::Up),
        down: was_pressed(keys, Key::Down),
        dec: was_pressed(keys, Key::Left),
        inc: was_pressed(keys, Key::Right),
        activate: was_pressed(keys, Key::Enter),
        fold: was_pressed(keys, Key::Tab),
        reset: was_pressed(keys, Key::R),
        scale: if is_held(keys, Key::Shift) {
            F32(COARSE_BITS)
        } else if is_held(keys, Key::Ctrl) {
            F32(FINE_BITS)
        } else {
            F32(ONE_BITS)
        },
        sweep: F32(0),
    }
}

impl PanelNav {
    /// Nothing said.
    pub fn none() -> (r: PanelNav)
        ensures
            r == silent(),
    {
        PanelNav {
            up: false,
            down: false,
            dec: false,
            inc: false,
            activate: false,
            fold: false,
            reset: false,
            scale: F32(ONE_BITS),
            sweep: F32(0),
        }
    }

    /// What the keyboard says.
    pub fn from_keys(input: &Input) -> (r: PanelNav)
        ensures
            r == keys_say(*input),
    {
        let scale: F32 = if input.held(Key::Shift) {
            F32(COARSE_BITS)
        } else if input.held(Key::Ctrl) {
            F32(FINE_BITS)
        } else {
            F32(ONE_BITS)
        };
        PanelNav {
            up: input.just_pressed(Key::Up),
            down: input.just_pressed(Key::Down),
            dec: input.just_pressed(Key::Left),
            inc: input.just_pressed(Key::Right),
            activate: input.just_pressed(Key::Enter),
            fold: input.just_pressed(Key::Tab),
            reset: input.just_pressed(Key::R),
            scale,
            sweep: F32(0),
        }
    }
}

/// Where the panel is on the screen, where that is known.
#[derive(Clone, Copy, Debug, PartialEq, Eq, Structural)]
pub struct Place {
    pub known: bool,
    pub left: F32,
    pub right: F32,
}

/// An edit of a field.
#[allow(inconsistent_fields)]
#[derive(Debug, PartialEq)]
pub enum Edit {
    Int(i64),
    Bool(bool),
    Variant(String),
    /// Roll a seed anew, from this one.
    Reroll(u64),
    /// A step of a float, up or down: so many times what its range says.
    Nudge { value: F64, range: FieldRange, up: bool, scale: F32 },
    /// Where a finger dragged a number: from where it began, as much of the range
    /// as the finger went. A whole number is rounded.
    Drag { origin: Origin, from: F32, to: F32, range: FieldRange, whole: bool },
    /// One tick of a stick's sweep of a number.
    Glide { value: Origin, range: FieldRange, amount: F32 },
}

/// What an edit is.
#[allow(inconsistent_fields)]
pub enum EditView {
    Int(i64),
    Bool(bool),
    Variant(Seq<char>),
    Reroll(u64),
    Nudge { value: F64, range: FieldRange, up: bool, scale: F32 },
    Drag { origin: Origin, from: F32, to: F32, range: FieldRange, whole: bool },
    Glide { value: Origin, range: FieldRange, amount: F32 },
}

impl View for Edit {
    type V = EditView;

    open spec fn view(&self) -> EditView {
        match self {
            Edit::Int(v) => EditView::Int(*v),
            Edit::Bool(v) => EditView::Bool(*v),
            Edit::Variant(v) => EditView::Variant(v@),
            Edit::Reroll(v) => EditView::Reroll(*v),
            Edit::Nudge { value, range, up, scale } => EditView::Nudge {
                value: *value,
                range: *range,
                up: *up,
                scale: *scale,
            },
            Edit::Drag { origin, from, to, range, whole } => EditView::Drag {
                origin: *origin,
                from: *from,
                to: *to,
                range: *range,
                whole: *whole,
            },
            Edit::Glide { value, range, amount } => EditView::Glide {
                value: *value,
                range: *range,
                amount: *amount,
            },
        }
    }
}

/// The path and the edit that are asked for, if any.
pub open spec fn asked(a: Option<(FieldPath, Edit)>) -> Option<(Seq<Seq<char>>, EditView)> {
    match a {
        Some((path, edit)) => Some((path@, edit@)),
        None => None,
    }
}

/// The next of some options, or the one before.
pub open spec fn cycled(selected: Seq<char>, options: Seq<Seq<char>>, up: bool) -> Option<EditView> {
    if options.len() == 0 {
        None
    } else {
        Some(EditView::Variant(next_choice(options, selected, up)))
    }
}

/// Enter on a row: a switch flips, options advance, a seed is rolled anew.
pub open spec fn activated(w: WidgetView) -> Option<EditView> {
    match w {
        WidgetView::Bool { value } => Some(EditView::Bool(!value)),
        WidgetView::Seed { value } => Some(EditView::Reroll(value)),
        WidgetView::Choice { selected, options } => cycled(selected, options, true),
        WidgetView::Variant { selected, options } => cycled(selected, options, true),
        _ => None,
    }
}

/// A step up or down of a row. A whole number moves by one.
pub open spec fn stepped(w: WidgetView, up: bool, scale: F32) -> Option<EditView> {
    match w {
        WidgetView::Float { value, range } => Some(EditView::Nudge { value, range, up, scale }),
        WidgetView::Int { value, range: _ } => Some(
            EditView::Int(
                (if up {
                    value + 1
                } else {
                    value - 1
                }) as i64,
            ),
        ),
        WidgetView::Choice { selected, options } => cycled(selected, options, up),
        WidgetView::Variant { selected, options } => cycled(selected, options, up),
        _ => None,
    }
}

/// One tick of a sweep: numbers only.
pub open spec fn glided(w: WidgetView, amount: F32) -> Option<EditView> {
    match w {
        WidgetView::Float { value, range } => Some(
            EditView::Glide { value: Origin::Float(value), range, amount },
        ),
        WidgetView::Int { value, range } => Some(
            EditView::Glide { value: Origin::Whole(value), range, amount },
        ),
        _ => None,
    }
}

/// The number that a drag of a row begins from.
pub open spec fn origin_of(w: WidgetView) -> Origin {
    match w {
        WidgetView::Float { value, range: _ } => Origin::Float(value),
        WidgetView::Int { value, range: _ } => Origin::Whole(value),
        _ => Origin::Nothing,
    }
}

/// The edit that a drag asks for: numbers only.
pub open spec fn swept(w: WidgetView, origin: Origin, from: F32, to: F32) -> Option<EditView> {
    match w {
        WidgetView::Float { value: _, range } => Some(
            EditView::Drag { origin, from, to, range, whole: false },
        ),
        WidgetView::Int { value: _, range } => Some(
            EditView::Drag { origin, from, to, range, whole: true },
        ),
        _ => None,
    }
}

/// An edit, of a row's field.
pub open spec fn of_row(row: RowView, edit: Option<EditView>) -> Option<
    (Seq<Seq<char>>, EditView),
> {
    match edit {
        Some(e) => Some((row.path, e)),
        None => None,
    }
}

/// The panel once the cursor has moved. A sweep is of the row that it was aimed
/// at: what it has earned is lost when the cursor moves or the stick is let go.
pub open spec fn moved_cursor(p: InspectPanel, count: int, nav: PanelNav) -> InspectPanel {
    let was = cursor_moved(p.cursor as int, count, false, false);
    let now = cursor_moved(p.cursor as int, count, nav.up, nav.down);
    InspectPanel {
        cursor: now as usize,
        sweep_carry: if now != was || same_value(nav.sweep, F32(0)) {
            F64(0)
        } else {
            p.sweep_carry
        },
        ..p
    }
}

/// The panel after the first `n` new fingers: each that is over a row takes it.
pub open spec fn tapped(
    p: InspectPanel,
    rows: Seq<RowView>,
    started: Seq<Touch>,
    lines: Seq<Option<usize>>,
    place: Place,
    n: int,
) -> InspectPanel
    decreases n,
{
    if n <= 0 {
        p
    } else {
        let before = tapped(p, rows, started, lines, place, n - 1);
        let touch = started[n - 1];
        match row_on(p.scroll as int, rows.len() as int, lines[n - 1]) {
            Some(row) => if below(touch.pos.x, place.left) || below(place.right, touch.pos.x) {
                before
            } else {
                InspectPanel {
                    cursor: row as usize,
                    touch_row: Some(row as usize),
                    drag: Some((touch.id, touch.pos.x, origin_of(rows[row].widget))),
                    ..before
                }
            },
            None => before,
        }
    }
}

/// The panel once the finger that drags has left, where it has.
pub open spec fn lifted(p: InspectPanel, ended: Seq<Touch>) -> InspectPanel {
    match p.drag {
        Some((id, _, _)) => if has_id(ended, id) {
            InspectPanel { drag: None, touch_row: None, ..p }
        } else {
            p
        },
        None => p,
    }
}

/// The panel once the cursor has moved and the fingers are taken.
pub open spec fn settled(
    p: InspectPanel,
    rows: Seq<RowView>,
    nav: PanelNav,
    input: Input,
    lines: Seq<Option<usize>>,
    place: Place,
) -> InspectPanel {
    let moved = moved_cursor(p, rows.len() as int, nav);
    if place.known {
        lifted(
            tapped(moved, rows, input.started@, lines, place, lines.len() as int),
            input.ended@,
        )
    } else {
        moved
    }
}

/// A drag that is going on.
pub struct Dragging {
    pub row: int,
    pub origin: Origin,
    pub from: F32,
    pub to: F32,
}

/// The drag that is going on, if one is.
pub open spec fn dragging(p: InspectPanel, count: int, input: Input) -> Option<Dragging> {
    match (p.drag, p.touch_row) {
        (Some((id, from, origin)), Some(row)) => match live_touch(input.live@, id) {
            Some(touch) => if row < count {
                Some(Dragging { row: row as int, origin, from, to: touch.pos.x })
            } else {
                None
            },
            None => None,
        },
        _ => None,
    }
}

/// The drag that a tick finds going on, if there is one.
pub open spec fn drag_in(
    p: InspectPanel,
    rows: Seq<RowView>,
    nav: PanelNav,
    input: Input,
    lines: Seq<Option<usize>>,
    place: Place,
) -> Option<Dragging> {
    if rows.len() == 0 || !place.known {
        None
    } else {
        dragging(settled(p, rows, nav, input, lines, place), rows.len() as int, input)
    }
}

/// What the verbs ask of the row under the cursor.
pub open spec fn verb(w: WidgetView, nav: PanelNav) -> Option<EditView> {
    if nav.activate {
        activated(w)
    } else if nav.inc != nav.dec {
        stepped(w, nav.inc, nav.scale)
    } else if !same_value(nav.sweep, F32(0)) {
        glided(w, nav.sweep)
    } else {
        None
    }
}

/// What a tick does and asks for. `far` is whether the finger that drags has gone
/// a pixel or more.
pub open spec fn decided(
    p: InspectPanel,
    rows: Seq<RowView>,
    nav: PanelNav,
    input: Input,
    lines: Seq<Option<usize>>,
    place: Place,
    far: bool,
) -> (InspectPanel, Option<(Seq<Seq<char>>, EditView)>) {
    if rows.len() == 0 {
        (InspectPanel { cursor: 0, ..p }, None)
    } else {
        let now = settled(p, rows, nav, input, lines, place);
        let by_keys = of_row(rows[now.cursor as int], verb(rows[now.cursor as int].widget, nav));
        match drag_in(p, rows, nav, input, lines, place) {
            Some(d) => {
                let sweep = swept(rows[d.row].widget, d.origin, d.from, d.to);
                if far && sweep is Some {
                    (now, of_row(rows[d.row], sweep))
                } else {
                    (now, by_keys)
                }
            },
            None => (now, by_keys),
        }
    }
}

/// Whether a tick makes `after` of a panel and asks for `got`. `moved` says whether the
/// finger that drags has gone a pixel or more.
pub open spec fn decides<M: Fn(F32, F32) -> bool>(
    p: InspectPanel,
    rows: Seq<RowView>,
    nav: PanelNav,
    input: Input,
    lines: Seq<Option<usize>>,
    place: Place,
    moved: M,
    after: InspectPanel,
    got: Option<(Seq<Seq<char>>, EditView)>,
) -> bool {
    match drag_in(p, rows, nav, input, lines, place) {
        Some(d) => exists|far: bool|
            #![trigger moved.ensures((d.to, d.from), far)]
            moved.ensures((d.to, d.from), far) && (after, got) == decided(
                p,
                rows,
                nav,
                input,
                lines,
                place,
                far,
            ),
        None => (after, got) == decided(p, rows, nav, input, lines, place, false),
    }
}

/// Whether a step leaves the whole number under the cursor among the `i64`s, where
/// the verbs ask for one.
pub open spec fn room_under_cursor(
    p: InspectPanel,
    rows: Seq<RowView>,
    nav: PanelNav,
    input: Input,
    lines: Seq<Option<usize>>,
    place: Place,
) -> bool {
    let now = settled(p, rows, nav, input, lines, place);
    rows.len() > 0 && !nav.activate && nav.inc != nav.dec ==> (rows[now.cursor as int].widget matches WidgetView::Int {
        value,
        range: _,
    } ==> if nav.inc {
        value < i64::MAX
    } else {
        value > i64::MIN
    })
}

/// What the verbs ask of a row.
fn ask(row: &Row, nav: PanelNav) -> (r: Option<(FieldPath, Edit)>)
    requires
        !nav.activate && nav.inc != nav.dec ==> (row.widget matches Widget::Int { value, range: _ }
            ==> if nav.inc {
            value < i64::MAX
        } else {
            value > i64::MIN
        }),
    ensures
        asked(r) == of_row(row@, verb(row@.widget, nav)),
{
    let edit: Option<Edit> = if nav.activate {
        activate(&row.widget)
    } else if nav.inc != nav.dec {
        step(&row.widget, nav.inc, nav.scale)
    } else if !nav.sweep.same(F32(0)) {
        glide(&row.widget, nav.sweep)
    } else {
        None
    };
    match edit {
        Some(e) => Some((row.path.clone(), e)),
        None => None,
    }
}

/// An edit, if any.
pub open spec fn edit_view(e: Option<Edit>) -> Option<EditView> {
    match e {
        Some(e) => Some(e@),
        None => None,
    }
}

/// The next option, or the one before.
fn pick(selected: &String, options: &Vec<String>, up: bool) -> (r: Option<Edit>)
    ensures
        edit_view(r) == cycled(selected@, views(options@), up),
{
    proof {
        assert(views(options@).len() == options@.len());
    }
    if options.len() == 0 {
        None
    } else {
        Some(Edit::Variant(cycle(options, selected, up)))
    }
}

fn activate(widget: &Widget) -> (r: Option<Edit>)
    ensures
        edit_view(r) == activated(widget@),
{
    match widget {
        Widget::Bool { value } => Some(Edit::Bool(!*value)),
        Widget::Seed { value } => Some(Edit::Reroll(*value)),
        Widget::Choice { selected, options } => pick(selected, options, true),
        Widget::Variant { selected, options } => pick(selected, options, true),
        _ => None,
    }
}

fn step(widget: &Widget, up: bool, scale: F32) -> (r: Option<Edit>)
    requires
        widget matches Widget::Int { value, range: _ } ==> if up {
            value < i64::MAX
        } else {
            value > i64::MIN
        },
    ensures
        edit_view(r) == stepped(widget@, up, scale),
{
    match widget {
        Widget::Float { value, range } => Some(
            Edit::Nudge { value: *value, range: *range, up, scale },
        ),
        Widget::Int { value, range: _ } => {
            let next: i64 = if up {
                *value + 1
            } else {
                *value - 1
            };
            Some(Edit::Int(next))
        },
        Widget::Choice { selected, options } => pick(selected, options, up),
        Widget::Variant { selected, options } => pick(selected, options, up),
        _ => None,
    }
}

fn glide(widget: &Widget, amount: F32) -> (r: Option<Edit>)
    ensures
        edit_view(r) == glided(widget@, amount),
{
    match widget {
        Widget::Float { value, range } => Some(
            Edit::Glide { value: Origin::Float(*value), range: *range, amount },
        ),
        Widget::Int { value, range } => Some(
            Edit::Glide { value: Origin::Whole(*value), range: *range, amount },
        ),
        _ => None,
    }
}

fn sweep(widget: &Widget, origin: Origin, from: F32, to: F32) -> (r: Option<Edit>)
    ensures
        edit_view(r) == swept(widget@, origin, from, to),
{
    match widget {
        Widget::Float { value: _, range } => Some(
            Edit::Drag { origin, from, to, range: *range, whole: false },
        ),
        Widget::Int { value: _, range } => Some(
            Edit::Drag { origin, from, to, range: *range, whole: true },
        ),
        _ => None,
    }
}

/// Take the new fingers, and let go of one that left.
fn take_fingers(
    panel: &mut InspectPanel,
    rows: &Vec<Row>,
    input: &Input,
    lines: &Vec<Option<usize>>,
    place: Place,
)
    requires
        lines@.len() == input.started@.len(),
        old(panel).cursor < rows@.len(),
    ensures
        *final(panel) == lifted(
            tapped(
                *old(panel),
                row_views(rows@),
                input.started@,
                lines@,
                place,
                lines@.len() as int,
            ),
            input.ended@,
        ),
        final(panel).cursor < rows@.len(),
{
    let ghost start = *panel;
    let ghost seen = row_views(rows@);
    let mut i: usize = 0;
    while i < input.started.len()
        invariant
            i <= input.started@.len() == lines@.len(),
            seen == row_views(rows@),
            *panel == tapped(start, seen, input.started@, lines@, place, i as int),
            panel.scroll == start.scroll,
            panel.cursor < rows@.len(),
        decreases input.started@.len() - i,
    {
        let touch: Touch = input.started[i];
        if let Some(row) = row_at(panel.scroll, rows.len(), lines[i]) {
            if !touch.pos.x.lt(place.left) && !place.right.lt(touch.pos.x) {
                proof {
                    assert(seen[row as int] == rows@[row as int]@);
                }
                let origin: Origin = match &rows[row].widget {
                    Widget::Float { value, range: _ } => Origin::Float(*value),
                    Widget::Int { value, range: _ } => Origin::Whole(*value),
                    _ => Origin::Nothing,
                };
                panel.cursor = row;
                panel.touch_row = Some(row);
                panel.drag = Some((touch.id, touch.pos.x, origin));
            }
        }
        i = i + 1;
    }
    if let Some((id, _, _)) = panel.drag {
        if input.touch_ended(id) {
            panel.drag = None;
            panel.touch_row = None;
        }
    }
}

/// Whether [`decide`] can step the whole number that the verbs ask it to step: not
/// past the last `i64`, nor before the first.
pub fn can_step(
    panel: &InspectPanel,
    rows: &Vec<Row>,
    nav: PanelNav,
    input: &Input,
    lines: &Vec<Option<usize>>,
    place: Place,
) -> (r: bool)
    requires
        lines@.len() == input.started@.len(),
    ensures
        r == room_under_cursor(*panel, row_views(rows@), nav, *input, lines@, place),
{
    let count: usize = rows.len();
    let ghost seen = row_views(rows@);
    proof {
        assert(seen.len() == count);
    }
    if count == 0 || nav.activate || nav.inc == nav.dec {
        return true;
    }
    let mut next: InspectPanel = *panel;
    let was: usize = move_cursor(panel.cursor, count, false, false);
    next.cursor = move_cursor(panel.cursor, count, nav.up, nav.down);
    if next.cursor != was || nav.sweep.same(F32(0)) {
        next.sweep_carry = F64(0);
    }
    if place.known {
        take_fingers(&mut next, rows, input, lines, place);
    }
    proof {
        assert(next == settled(*panel, seen, nav, *input, lines@, place));
        assert(seen[next.cursor as int] == rows@[next.cursor as int]@);
    }
    match rows[next.cursor].widget {
        Widget::Int { value, range: _ } => if nav.inc {
            value < i64::MAX
        } else {
            value > i64::MIN
        },
        _ => true,
    }
}

/// One tick of the panel: move the cursor, take the fingers, or ask for an edit.
///
/// `lines` has the line of the list that each new finger is on, and `moved` says
/// of two places on the screen whether they are a pixel or more apart.
pub fn decide<M: Fn(F32, F32) -> bool>(
    panel: &mut InspectPanel,
    rows: &Vec<Row>,
    nav: PanelNav,
    input: &Input,
    lines: &Vec<Option<usize>>,
    place: Place,
    moved: M,
) -> (r: Option<(FieldPath, Edit)>)
    requires
        lines@.len() == input.started@.len(),
        room_under_cursor(*old(panel), row_views(rows@), nav, *input, lines@, place),
        forall|to: F32, from: F32| #[trigger] moved.requires((to, from)),
    ensures
        decides(
            *old(panel),
            row_views(rows@),
            nav,
            *input,
            lines@,
            place,
            moved,
            *final(panel),
            asked(r),
        ),
{
    let ghost start = *panel;
    let ghost seen = row_views(rows@);
    proof {
        assert(seen.len() == rows@.len());
    }
    let count: usize = rows.len();
    if count == 0 {
        panel.cursor = 0;
        return None;
    }
    let was: usize = move_cursor(panel.cursor, count, false, false);
    let now: usize = move_cursor(panel.cursor, count, nav.up, nav.down);
    panel.cursor = now;
    if now != was || nav.sweep.same(F32(0)) {
        panel.sweep_carry = F64(0);
    }
    if place.known {
        take_fingers(panel, rows, input, lines, place);
        proof {
            assert(*panel == settled(start, seen, nav, *input, lines@, place));
        }
        if let (Some((id, from, origin)), Some(at)) = (panel.drag, panel.touch_row) {
            if let Some(touch) = input.touch(id) {
                if at < count {
                    let to: F32 = touch.pos.x;
                    let far: bool = moved(to, from);
                    let swipe: Option<Edit> = if far {
                        sweep(&rows[at].widget, origin, from, to)
                    } else {
                        None
                    };
                    proof {
                        assert(seen[at as int] == rows@[at as int]@);
                        assert(seen[panel.cursor as int] == rows@[panel.cursor as int]@);
                    }
                    let result: Option<(FieldPath, Edit)> = match swipe {
                        Some(edit) => Some((rows[at].path.clone(), edit)),
                        None => ask(&rows[panel.cursor], nav),
                    };
                    proof {
                        let d = drag_in(start, seen, nav, *input, lines@, place)->0;
                        assert(d == Dragging { row: at as int, origin, from, to });
                        assert(moved.ensures((d.to, d.from), far));
                        assert((*panel, asked(result)) == decided(
                            start,
                            seen,
                            nav,
                            *input,
                            lines@,
                            place,
                            far,
                        ));
                    }
                    return result;
                }
            }
        }
    }
    proof {
        assert(*panel == settled(start, seen, nav, *input, lines@, place));
        assert(seen[panel.cursor as int] == rows@[panel.cursor as int]@);
    }
    ask(&rows[panel.cursor], nav)
}

// ---------------------------------------------------------------------------
// Drawing
// ---------------------------------------------------------------------------

/// One thing to paint. Lines count from the title's, which is the first.
#[derive(Debug, PartialEq)]
pub enum Paint {
    /// The box behind everything, so many lines high.
    Frame { lines: usize },
    /// What is selected.
    Title { text: String },
    /// The highlight of the row that the cursor is on.
    Cursor { line: usize },
    /// A row's label, so deep; a heading's is dim.
    Label { line: usize, depth: usize, text: String, dim: bool },
    /// A row's value, up to the right edge.
    Value { line: usize, text: String, dim: bool },
    /// Where a number sits in its range.
    Bar { line: usize, value: Origin, range: FieldRange },
    /// A colour, as one that a screen can show.
    Swatch { line: usize, color: Vec3 },
}

/// What is painted.
pub enum PaintView {
    Frame { lines: int },
    Title { text: Seq<char> },
    Cursor { line: int },
    Label { line: int, depth: int, text: Seq<char>, dim: bool },
    Value { line: int, text: Seq<char>, dim: bool },
    Bar { line: int, value: Origin, range: FieldRange },
    Swatch { line: int, color: Vec3 },
}

impl View for Paint {
    type V = PaintView;

    open spec fn view(&self) -> PaintView {
        match self {
            Paint::Frame { lines } => PaintView::Frame { lines: *lines as int },
            Paint::Title { text } => PaintView::Title { text: text@ },
            Paint::Cursor { line } => PaintView::Cursor { line: *line as int },
            Paint::Label { line, depth, text, dim } => PaintView::Label {
                line: *line as int,
                depth: *depth as int,
                text: text@,
                dim: *dim,
            },
            Paint::Value { line, text, dim } => PaintView::Value {
                line: *line as int,
                text: text@,
                dim: *dim,
            },
            Paint::Bar { line, value, range } => PaintView::Bar {
                line: *line as int,
                value: *value,
                range: *range,
            },
            Paint::Swatch { line, color } => PaintView::Swatch { line: *line as int, color: *color },
        }
    }
}

/// What is painted, in order.
pub open spec fn paint_views(s: Seq<Paint>) -> Seq<PaintView> {
    Seq::new(s.len(), |i: int| s[i]@)
}

/// Whether a row is a heading, which is dim.
pub open spec fn is_heading(w: WidgetView) -> bool {
    w is Group || w is Vector || w is Color || w is Unsupported
}

/// What the value column says: nothing for a heading with its content below. A
/// seed shows its low half.
pub open spec fn value_shown(w: WidgetView, decimals: Seq<char>) -> Option<Seq<char>> {
    match w {
        WidgetView::Float { .. } => Some(shortened(decimals)),
        WidgetView::Int { value, range: _ } => Some(signed_decimal(value as int)),
        WidgetView::Bool { value } => Some(shown(ValueView::Bool(value), decimals)),
        WidgetView::Seed { value } => Some(hex((value % 0x1_0000_0000) as nat, 8)),
        WidgetView::Choice { selected, options: _ } => Some("< "@ + selected + " >"@),
        WidgetView::Variant { selected, options: _ } => Some("< "@ + selected + " >"@),
        WidgetView::Unsupported => Some("-"@),
        _ => None,
    }
}

/// One channel as a screen can show it: in the unit range, and zero where it is no
/// number.
pub open spec fn channel(v: F32) -> F32 {
    if magnitude(v) < INFINITY_BITS {
        clamped(v, F32(0), F32(ONE_BITS))
    } else {
        F32(0)
    }
}

/// A colour as a screen can show it.
pub open spec fn swatch(c: Vec3) -> Vec3 {
    Vec3 { x: channel(c.x), y: channel(c.y), z: channel(c.z) }
}

/// A row, painted.
pub open spec fn row_paint(
    row: RowView,
    decimals: Seq<char>,
    line: int,
    selected: bool,
) -> Seq<PaintView> {
    let dim = is_heading(row.widget);
    (if selected {
        seq![PaintView::Cursor { line }]
    } else {
        Seq::empty()
    }) + seq![PaintView::Label { line, depth: row.depth, text: row.label, dim }] + (
    match value_shown(row.widget, decimals) {
        Some(text) => seq![PaintView::Value { line, text, dim }],
        None => Seq::empty(),
    }) + (match row.widget {
        WidgetView::Float { value, range } => seq![
            PaintView::Bar { line, value: Origin::Float(value), range },
        ],
        WidgetView::Int { value, range } => seq![
            PaintView::Bar { line, value: Origin::Whole(value), range },
        ],
        WidgetView::Color { value } => seq![PaintView::Swatch { line, color: swatch(value) }],
        _ => Seq::empty(),
    })
}

/// The first `n` rows from `first` on, painted. The cursor shows only where the
/// panel has the verbs.
pub open spec fn rows_paint(
    rows: Seq<RowView>,
    decimals: Seq<Seq<char>>,
    cursor: int,
    focused: bool,
    first: int,
    n: int,
) -> Seq<PaintView>
    decreases n,
{
    if n <= 0 {
        Seq::empty()
    } else {
        rows_paint(rows, decimals, cursor, focused, first, n - 1) + row_paint(
            rows[first + n - 1],
            decimals[first + n - 1],
            n,
            focused && first + n - 1 == cursor,
        )
    }
}

/// The panel once it is drawn, and what is painted.
pub open spec fn drawn(
    p: InspectPanel,
    rows: Seq<RowView>,
    decimals: Seq<Seq<char>>,
    known: bool,
    max_rows: int,
    title: Seq<char>,
    focused: bool,
) -> (InspectPanel, Seq<PaintView>) {
    if !p.open || !known || rows.len() == 0 {
        (p, Seq::empty())
    } else {
        let n = rows_shown(rows.len() as int, max_rows);
        let first = first_shown(p.cursor as int, rows.len() as int, max_rows);
        (
            InspectPanel { scroll: first as usize, ..p },
            seq![PaintView::Frame { lines: n + 1 }, PaintView::Title { text: title }]
                + rows_paint(rows, decimals, p.cursor as int, focused, first, n),
        )
    }
}

/// What the value column says.
fn value_text(widget: &Widget, decimals: &str) -> (r: Option<String>)
    ensures
        match r {
            Some(text) => value_shown(widget@, decimals@) == Some(text@),
            None => value_shown(widget@, decimals@) is None,
        },
{
    match widget {
        Widget::Float { .. } => Some(TweakValue::Float(F32(0)).display(decimals)),
        Widget::Int { value, range: _ } => Some(write_signed(*value)),
        Widget::Bool { value } => Some(TweakValue::Bool(*value).display(decimals)),
        Widget::Seed { value } => Some(write_hex8((*value % 0x1_0000_0000) as u32)),
        Widget::Choice { selected, options: _ } => Some(
            joined(joined("< ", selected.as_str()).as_str(), " >"),
        ),
        Widget::Variant { selected, options: _ } => Some(
            joined(joined("< ", selected.as_str()).as_str(), " >"),
        ),
        Widget::Unsupported => Some("-".to_owned()),
        _ => None,
    }
}

/// One channel as a screen can show it.
fn display_channel(v: F32) -> (r: F32)
    ensures
        r == channel(v),
{
    if v.is_finite() {
        v.clamp(F32(0), F32(ONE_BITS))
    } else {
        F32(0)
    }
}

fn paint(out: &mut Vec<Paint>, p: Paint)
    ensures
        paint_views(final(out)@) == paint_views(old(out)@).push(p@),
{
    let ghost before = paint_views(out@);
    let ghost view = p@;
    out.push(p);
    proof {
        assert(paint_views(out@) =~= before.push(view));
    }
}

/// Paint one row.
fn paint_row(out: &mut Vec<Paint>, row: &Row, decimals: &str, line: usize, selected: bool)
    ensures
        paint_views(final(out)@) == paint_views(old(out)@) + row_paint(
            row@,
            decimals@,
            line as int,
            selected,
        ),
{
    let ghost before = paint_views(out@);
    let dim: bool = match &row.widget {
        Widget::Group => true,
        Widget::Vector => true,
        Widget::Color { .. } => true,
        Widget::Unsupported => true,
        _ => false,
    };
    if selected {
        paint(out, Paint::Cursor { line });
    }
    paint(out, Paint::Label { line, depth: row.depth, text: row.label.clone(), dim });
    if let Some(text) = value_text(&row.widget, decimals) {
        paint(out, Paint::Value { line, text, dim });
    }
    match &row.widget {
        Widget::Float { value, range } => {
            paint(out, Paint::Bar { line, value: Origin::Float(*value), range: *range });
        },
        Widget::Int { value, range } => {
            paint(out, Paint::Bar { line, value: Origin::Whole(*value), range: *range });
        },
        Widget::Color { value } => {
            let color = Vec3 {
                x: display_channel(value.x),
                y: display_channel(value.y),
                z: display_channel(value.z),
            };
            paint(out, Paint::Swatch { line, color });
        },
        _ => {},
    }
    proof {
        assert(paint_views(out@) =~= before + row_paint(row@, decimals@, line as int, selected));
    }
}

/// Paint the panel.
///
/// `decimals` has each value with three decimals where it is a float, `known` says
/// whether the size of the screen is, `max_rows` how many rows fit on it, and
/// `focused` whether the verbs go to this panel.
pub fn draw(
    panel: &mut InspectPanel,
    rows: &Vec<Row>,
    decimals: &Vec<String>,
    known: bool,
    max_rows: usize,
    title: &str,
    focused: bool,
) -> (r: Vec<Paint>)
    requires
        decimals@.len() == rows@.len(),
        1 <= max_rows < usize::MAX,
    ensures
        (*final(panel), paint_views(r@)) == drawn(
            *old(panel),
            row_views(rows@),
            views(decimals@),
            known,
            max_rows as int,
            title@,
            focused,
        ),
{
    let mut out: Vec<Paint> = Vec::new();
    let ghost start = *panel;
    let ghost seen = row_views(rows@);
    let ghost texts = views(decimals@);
    proof {
        assert(paint_views(out@) =~= Seq::empty());
        assert(seen.len() == rows@.len());
    }
    let count: usize = rows.len();
    if !panel.open || !known || count == 0 {
        return out;
    }
    let n: usize = if count < max_rows {
        count
    } else {
        max_rows
    };
    let down: usize = if panel.cursor < n - 1 {
        0
    } else {
        panel.cursor - (n - 1)
    };
    let first: usize = if down < count - n {
        down
    } else {
        count - n
    };
    panel.scroll = first;
    paint(&mut out, Paint::Frame { lines: n + 1 });
    paint(&mut out, Paint::Title { text: title.to_owned() });
    let ghost head = paint_views(out@);
    let mut i: usize = 0;
    proof {
        assert(head =~= head + Seq::<PaintView>::empty());
    }
    while i < n
        invariant
            i <= n,
            first + n <= count == rows@.len(),
            n < usize::MAX,
            decimals@.len() == rows@.len(),
            seen == row_views(rows@),
            texts == views(decimals@),
            *panel == (InspectPanel { scroll: first, ..start }),
            paint_views(out@) == head + rows_paint(
                seen,
                texts,
                start.cursor as int,
                focused,
                first as int,
                i as int,
            ),
        decreases n - i,
    {
        let at: usize = first + i;
        let selected: bool = focused && at == panel.cursor;
        proof {
            assert(seen[at as int] == rows@[at as int]@);
            assert(texts[at as int] == decimals@[at as int]@);
        }
        paint_row(&mut out, &rows[at], decimals[at].as_str(), i + 1, selected);
        proof {
            assert(paint_views(out@) =~= head + rows_paint(
                seen,
                texts,
                start.cursor as int,
                focused,
                first as int,
                i + 1,
            ));
        }
        i = i + 1;
    }
    proof {
        assert(head =~= seq![
            PaintView::Frame { lines: n + 1 },
            PaintView::Title { text: title@ },
        ]);
    }
    out
}

// ---------------------------------------------------------------------------
// Laws
// ---------------------------------------------------------------------------

/// A heading can be selected, and whatever is said to it, it does nothing.
pub proof fn headings_are_inert(w: WidgetView, nav: PanelNav)
    requires
        is_heading(w),
    ensures
        verb(w, nav) is None,
{
}

/// Folding and resetting have no meaning here: a tick does the same with them and
/// without.
pub proof fn fold_and_reset_are_not_heard(
    p: InspectPanel,
    rows: Seq<RowView>,
    nav: PanelNav,
    input: Input,
    lines: Seq<Option<usize>>,
    place: Place,
    far: bool,
    fold: bool,
    reset: bool,
)
    ensures
        decided(p, rows, PanelNav { fold, reset, ..nav }, input, lines, place, far) == decided(
            p,
            rows,
            nav,
            input,
            lines,
            place,
            far,
        ),
{
}

/// Every channel of a swatch is a number in the unit range, whatever colour it
/// stands for.
pub proof fn a_swatch_is_a_colour(v: F32)
    ensures
        !crate::float::is_nan(channel(v)),
        0 <= crate::float::rank(channel(v)) <= ONE_BITS,
{
}

proof fn taps_keep_in_list(
    p: InspectPanel,
    rows: Seq<RowView>,
    started: Seq<Touch>,
    lines: Seq<Option<usize>>,
    place: Place,
    n: int,
)
    requires
        p.cursor < rows.len() <= usize::MAX,
    ensures
        tapped(p, rows, started, lines, place, n).cursor < rows.len(),
    decreases n,
{
    if n > 0 {
        taps_keep_in_list(p, rows, started, lines, place, n - 1);
    }
}

/// A tick leaves the cursor on a row of the list that it was shown.
pub proof fn the_cursor_stays_in_the_list(
    p: InspectPanel,
    rows: Seq<RowView>,
    nav: PanelNav,
    input: Input,
    lines: Seq<Option<usize>>,
    place: Place,
    far: bool,
)
    requires
        rows.len() <= usize::MAX,
    ensures
        ({
            let after = decided(p, rows, nav, input, lines, place, far).0;
            if rows.len() == 0 {
                after.cursor == 0
            } else {
                after.cursor < rows.len()
            }
        }),
{
    if rows.len() > 0 {
        let moved = moved_cursor(p, rows.len() as int, nav);
        assert(moved.cursor < rows.len());
        taps_keep_in_list(moved, rows, input.started@, lines, place, lines.len() as int);
    }
}

} // verus!
