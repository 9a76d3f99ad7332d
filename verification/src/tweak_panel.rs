//! The overlay that edits tunables: rows, a cursor, and a few keys.
//!
//! The panel is a state machine: what it becomes and what it asks for depend on
//! its state, the listed leaves and one tick's input, and on nothing else. It
//! asks for an edit in words where the edit takes arithmetic: by so many steps,
//! or as far as a finger went.

use vstd::prelude::*;

use crate::find::{first_is, first_is_none, first_means, first_where, none_before};
use crate::float::{below, from_whole, F32};
use crate::input::{has_id, is_held, live_touch, was_pressed, Input, Key, Touch};
use crate::reflect::FieldRange;
use crate::text::{before_dot, decimal, find_dot, joined, views, write_decimal};
use crate::tweak::{
    bounds_ok, clear, clear_bounds_ok, cleared, field_views, fields_of, listed_fields, recorded,
    set_and_record, shown, tunables, TweakField, TweakFieldView, TweakValue,
    ValueView, World,
};

verus! {

/// The bits of 12: how far the panel stands from the corner of the screen.
pub const MARGIN_BITS: u32 = 0x4140_0000;

/// The bits of 352: where the panel ends on the right.
pub const RIGHT_BITS: u32 = 0x43b0_0000;

/// One line of the panel.
#[derive(Clone, Copy, Debug, PartialEq, Eq, Structural)]
pub enum Row {
    /// A root's header.
    Group(usize),
    /// A leaf, by its place in the list of leaves.
    Field(usize),
}

/// What the panel is doing between ticks.
pub struct TweakPanel {
    /// Whether the panel is up.
    pub open: bool,
    /// Where the cursor is, as a row.
    pub cursor: usize,
    /// The roots whose leaves are folded away.
    pub collapsed: Vec<usize>,
    /// The finger that drags a value: which, where it went down, and the value
    /// that it began from.
    pub drag: Option<(u64, F32, F32)>,
    /// The row that the finger went down on.
    pub touch_row: Option<usize>,
    /// The first row that the last drawn frame put on screen.
    pub scroll: usize,
}

/// The state of the panel.
pub struct PanelView {
    pub open: bool,
    pub cursor: int,
    pub collapsed: Seq<usize>,
    pub drag: Option<(u64, F32, F32)>,
    pub touch_row: Option<usize>,
    pub scroll: int,
}

/// Equal to a given root.
pub open spec fn this_root(root: usize) -> spec_fn(usize) -> bool {
    |r: usize| r == root
}

/// The folded roots with one more, or one less.
pub open spec fn folded(collapsed: Seq<usize>, root: usize, fold: bool) -> Seq<usize> {
    match (fold, first_where(collapsed, this_root(root))) {
        (true, None) => collapsed.push(root),
        (false, Some(at)) => collapsed.remove(at),
        _ => collapsed,
    }
}

/// The rows of the first `n` leaves: a header wherever the root changes, and the
/// leaf unless its root is folded.
pub open spec fn rows_of(collapsed: Seq<usize>, fields: Seq<TweakFieldView>, n: int) -> Seq<Row>
    decreases n,
{
    if n <= 0 {
        Seq::empty()
    } else {
        let root = fields[n - 1].root;
        let before = rows_of(collapsed, fields, n - 1);
        let headed = if n == 1 || fields[n - 2].root != root {
            before.push(Row::Group(root as usize))
        } else {
            before
        };
        if collapsed.contains(root as usize) {
            headed
        } else {
            headed.push(Row::Field((n - 1) as usize))
        }
    }
}

/// Every row.
pub open spec fn all_rows(collapsed: Seq<usize>, fields: Seq<TweakFieldView>) -> Seq<Row> {
    rows_of(collapsed, fields, fields.len() as int)
}

impl TweakPanel {
    pub open spec fn view(&self) -> PanelView {
        PanelView {
            open: self.open,
            cursor: self.cursor as int,
            collapsed: self.collapsed@,
            drag: self.drag,
            touch_row: self.touch_row,
            scroll: self.scroll as int,
        }
    }

    /// A closed panel with nothing folded.
    pub fn new() -> (r: TweakPanel)
        ensures
            r@ == (PanelView {
                open: false,
                cursor: 0,
                collapsed: Seq::empty(),
                drag: None,
                touch_row: None,
                scroll: 0,
            }),
    {
        let r = TweakPanel {
            open: false,
            cursor: 0,
            collapsed: Vec::new(),
            drag: None,
            touch_row: None,
            scroll: 0,
        };
        proof {
            assert(r.collapsed@ =~= Seq::empty());
        }
        r
    }

    /// Open or close. A change forgets the drag.
    pub fn set_open(&mut self, open: bool)
        ensures
            final(self)@ == (if old(self)@.open == open {
                old(self)@
            } else {
                PanelView { open, drag: None, touch_row: None, ..old(self)@ }
            }),
    {
        if self.open == open {
            return;
        }
        self.open = open;
        self.drag = None;
        self.touch_row = None;
    }

    /// Open where it is closed, and the other way round.
    pub fn toggle(&mut self)
        ensures
            final(self)@ == (PanelView {
                open: !old(self)@.open,
                drag: None,
                touch_row: None,
                ..old(self)@
            }),
    {
        let open: bool = !self.open;
        self.set_open(open);
    }

    /// Where the cursor is.
    pub fn cursor(&self) -> (r: usize)
        ensures
            r == self@.cursor,
    {
        self.cursor
    }

    /// The first row on screen as of the last frame.
    pub fn scroll(&self) -> (r: usize)
        ensures
            r == self@.scroll,
    {
        self.scroll
    }

    fn position(&self, root: usize) -> (r: Option<usize>)
        ensures
            match r {
                Some(i) => i < self.collapsed@.len() && first_where(
                    self.collapsed@,
                    this_root(root),
                ) == Some(i as int),
                None => first_where(self.collapsed@, this_root(root)) is None,
            },
            r is Some == self.collapsed@.contains(root),
    {
        let ghost all = self.collapsed@;
        let mut i: usize = 0;
        while i < self.collapsed.len()
            invariant
                i <= self.collapsed@.len(),
                all == self.collapsed@,
                none_before(all, this_root(root), i as int),
            decreases self.collapsed@.len() - i,
        {
            if self.collapsed[i] == root {
                proof {
                    first_is(all, this_root(root), i as int);
                }
                return Some(i);
            }
            i = i + 1;
        }
        proof {
            first_is_none(all, this_root(root));
            if all.contains(root) {
                let j = all.index_of(root);
                assert(!this_root(root)(all[j]));
            }
        }
        None
    }

    /// Whether a root is folded.
    pub fn is_collapsed(&self, root: usize) -> (r: bool)
        ensures
            r == self@.collapsed.contains(root),
    {
        self.position(root).is_some()
    }

    /// Fold or unfold a root.
    pub fn set_collapsed(&mut self, root: usize, collapsed: bool)
        ensures
            final(self)@ == (PanelView {
                collapsed: folded(old(self)@.collapsed, root, collapsed),
                ..old(self)@
            }),
    {
        match (collapsed, self.position(root)) {
            (true, None) => {
                self.collapsed.push(root);
            },
            (false, Some(at)) => {
                self.collapsed.remove(at);
            },
            _ => {},
        }
    }

    /// The visible lines: each root's header followed by its leaves, unless it is
    /// folded.
    pub fn rows(&self, fields: &Vec<TweakField>) -> (r: Vec<Row>)
        ensures
            r@ == all_rows(self@.collapsed, field_views(fields@)),
    {
        let ghost seen = field_views(fields@);
        let mut rows: Vec<Row> = Vec::new();
        let mut i: usize = 0;
        while i < fields.len()
            invariant
                i <= fields@.len(),
                seen == field_views(fields@),
                rows@ == rows_of(self@.collapsed, seen, i as int),
            decreases fields@.len() - i,
        {
            let root: usize = fields[i].root;
            proof {
                assert(seen[i as int] == fields@[i as int]@);
                if i > 0 {
                    assert(seen[i - 1] == fields@[i - 1]@);
                }
            }
            if i == 0 || fields[i - 1].root != root {
                rows.push(Row::Group(root));
            }
            if !self.is_collapsed(root) {
                rows.push(Row::Field(i));
            }
            i = i + 1;
        }
        rows
    }
}

/// What one press is worth: a step, ten of them, or a tenth.
#[derive(Clone, Copy, Debug, PartialEq, Eq, Structural)]
pub enum Pace {
    One,
    Coarse,
    Fine,
}

/// What one tick of input asks for.
#[derive(Debug, PartialEq)]
pub enum Action {
    /// Put a value in a leaf.
    Put(String, TweakValue),
    /// Move a single-precision leaf by a step, up or down.
    Nudge { path: String, value: F32, range: FieldRange, up: bool, pace: Pace },
    /// Set a number to where a finger dragged it: `start`, and as much of the
    /// range as the finger went from `from` to `to`. A whole number is rounded.
    Sweep { path: String, start: F32, from: F32, to: F32, range: FieldRange, whole: bool },
    /// Put a leaf back.
    Reset(String),
}

/// What is asked for.
pub enum ActionView {
    Put(Seq<char>, ValueView),
    Nudge { path: Seq<char>, value: F32, range: FieldRange, up: bool, pace: Pace },
    Sweep { path: Seq<char>, start: F32, from: F32, to: F32, range: FieldRange, whole: bool },
    Reset(Seq<char>),
}

impl View for Action {
    type V = ActionView;

    open spec fn view(&self) -> ActionView {
        match self {
            Action::Put(path, value) => ActionView::Put(path@, value@),
            Action::Nudge { path, value, range, up, pace } => ActionView::Nudge {
                path: path@,
                value: *value,
                range: *range,
                up: *up,
                pace: *pace,
            },
            Action::Sweep { path, start, from, to, range, whole } => ActionView::Sweep {
                path: path@,
                start: *start,
                from: *from,
                to: *to,
                range: *range,
                whole: *whole,
            },
            Action::Reset(path) => ActionView::Reset(path@),
        }
    }
}

/// What is asked for, if anything.
pub open spec fn asked(a: Option<Action>) -> Option<ActionView> {
    match a {
        Some(a) => Some(a@),
        None => None,
    }
}

/// Equal to a given name.
pub open spec fn this_name(name: Seq<char>) -> spec_fn(Seq<char>) -> bool {
    |c: Seq<char>| c == name
}

/// The place of a variant among the choices: the first where it is not one.
pub open spec fn choice_at(choices: Seq<Seq<char>>, name: Seq<char>) -> int {
    match first_where(choices, this_name(name)) {
        Some(i) => i,
        None => 0,
    }
}

/// The next choice, or the one before, round and round.
pub open spec fn next_choice(choices: Seq<Seq<char>>, name: Seq<char>, up: bool) -> Seq<char> {
    let at = choice_at(choices, name);
    let n = choices.len() as int;
    if up {
        choices[(at + 1) % n]
    } else {
        choices[(at + n - 1) % n]
    }
}

/// Enter on a leaf: a switch flips, an enum advances, a number stays.
pub open spec fn activated(f: TweakFieldView) -> Option<ActionView> {
    match f.value {
        ValueView::Bool(v) => Some(ActionView::Put(f.path, ValueView::Bool(!v))),
        ValueView::Choice(name) => if f.choices.len() == 0 {
            None
        } else {
            Some(ActionView::Put(f.path, ValueView::Choice(next_choice(f.choices, name, true))))
        },
        _ => None,
    }
}

/// Whether a step leaves an integer among the `i64`s.
pub open spec fn has_room(f: TweakFieldView, up: bool) -> bool {
    f.value matches ValueView::Int(v) ==> if up {
        v < i64::MAX
    } else {
        v > i64::MIN
    }
}

/// A step up or down. An integer moves by one however small the step is; an enum
/// by one variant; a switch not at all.
pub open spec fn stepped(f: TweakFieldView, up: bool, pace: Pace) -> Option<ActionView> {
    match f.value {
        ValueView::Float(v) => Some(
            ActionView::Nudge { path: f.path, value: v, range: f.range, up, pace },
        ),
        ValueView::Int(v) => Some(
            ActionView::Put(
                f.path,
                ValueView::Int(
                    (if up {
                        v + 1
                    } else {
                        v - 1
                    }) as i64,
                ),
            ),
        ),
        ValueView::Bool(_) => None,
        ValueView::Choice(name) => if f.choices.len() == 0 {
            None
        } else {
            Some(
                ActionView::Put(f.path, ValueView::Choice(next_choice(f.choices, name, up))),
            )
        },
    }
}

fn find_choice(choices: &Vec<String>, name: &String) -> (r: usize)
    requires
        choices@.len() > 0,
    ensures
        r < choices@.len(),
        r == choice_at(views(choices@), name@),
{
    let ghost all = views(choices@);
    let mut i: usize = 0;
    while i < choices.len()
        invariant
            i <= choices@.len(),
            all == views(choices@),
            none_before(all, this_name(name@), i as int),
        decreases choices@.len() - i,
    {
        if choices[i] == *name {
            proof {
                first_is(all, this_name(name@), i as int);
            }
            return i;
        }
        i = i + 1;
    }
    proof {
        first_is_none(all, this_name(name@));
    }
    0
}

/// The next choice, or the one before.
pub(crate) fn cycle(choices: &Vec<String>, name: &String, up: bool) -> (r: String)
    requires
        choices@.len() > 0,
    ensures
        r@ == next_choice(views(choices@), name@, up),
{
    let n: usize = choices.len();
    let at: usize = find_choice(choices, name);
    let next: usize = if up {
        if at + 1 < n {
            at + 1
        } else {
            0
        }
    } else if at > 0 {
        at - 1
    } else {
        n - 1
    };
    proof {
        if up {
            if at + 1 < n {
                vstd::arithmetic::div_mod::lemma_small_mod((at + 1) as nat, n as nat);
            } else {
                vstd::arithmetic::div_mod::lemma_mod_self_0(n as int);
            }
        } else if at > 0 {
            vstd::arithmetic::div_mod::lemma_mod_add_multiples_vanish(at - 1, n as int);
            vstd::arithmetic::div_mod::lemma_small_mod((at - 1) as nat, n as nat);
        } else {
            vstd::arithmetic::div_mod::lemma_small_mod((n - 1) as nat, n as nat);
        }
    }
    choices[next].clone()
}

/// Enter on a leaf.
fn activate(field: &TweakField) -> (r: Option<Action>)
    ensures
        asked(r) == activated(field@),
{
    match &field.value {
        TweakValue::Bool(v) => Some(Action::Put(field.path.clone(), TweakValue::Bool(!*v))),
        TweakValue::Choice(name) => {
            proof {
                assert(views(field.choices@).len() == field.choices@.len());
            }
            if field.choices.len() == 0 {
                None
            } else {
                let next: String = cycle(&field.choices, name, true);
                Some(Action::Put(field.path.clone(), TweakValue::Choice(next)))
            }
        },
        _ => None,
    }
}

/// A step up or down.
fn step(field: &TweakField, up: bool, pace: Pace) -> (r: Option<Action>)
    requires
        has_room(field@, up),
    ensures
        asked(r) == stepped(field@, up, pace),
{
    match &field.value {
        TweakValue::Float(v) => Some(
            Action::Nudge { path: field.path.clone(), value: *v, range: field.range, up, pace },
        ),
        TweakValue::Int(v) => {
            let next: i64 = if up {
                *v + 1
            } else {
                *v - 1
            };
            Some(Action::Put(field.path.clone(), TweakValue::Int(next)))
        },
        TweakValue::Bool(_) => None,
        TweakValue::Choice(name) => {
            proof {
                assert(views(field.choices@).len() == field.choices@.len());
            }
            if field.choices.len() == 0 {
                None
            } else {
                let next: String = cycle(&field.choices, name, up);
                Some(Action::Put(field.path.clone(), TweakValue::Choice(next)))
            }
        },
    }
}

// ---------------------------------------------------------------------------
// Fingers
// ---------------------------------------------------------------------------

/// Whether a finger's `x` is over the panel.
pub open spec fn on_panel(x: F32) -> bool {
    !below(x, F32(MARGIN_BITS)) && !below(F32(RIGHT_BITS), x)
}

/// The row that a line of the screen shows, where it shows one.
pub open spec fn row_on(scroll: int, count: int, line: Option<usize>) -> Option<int> {
    match line {
        Some(k) => if scroll + k < count {
            Some(scroll + k)
        } else {
            None
        },
        None => None,
    }
}

/// The value that a drag of a row begins from.
pub open spec fn start_value(rows: Seq<Row>, fields: Seq<TweakFieldView>, row: int) -> F32 {
    match rows[row] {
        Row::Field(i) => match fields[i as int].value {
            ValueView::Float(v) => v,
            ValueView::Int(v) => from_whole(v),
            _ => F32(0),
        },
        Row::Group(_) => F32(0),
    }
}

/// The panel after the first `n` new fingers: each that is over a row takes it.
pub open spec fn tapped(
    p: PanelView,
    fields: Seq<TweakFieldView>,
    rows: Seq<Row>,
    started: Seq<Touch>,
    lines: Seq<Option<usize>>,
    n: int,
) -> PanelView
    decreases n,
{
    if n <= 0 {
        p
    } else {
        let before = tapped(p, fields, rows, started, lines, n - 1);
        let touch = started[n - 1];
        match row_on(p.scroll, rows.len() as int, lines[n - 1]) {
            Some(row) => if on_panel(touch.pos.x) {
                PanelView {
                    cursor: row,
                    touch_row: Some(row as usize),
                    drag: Some((touch.id, touch.pos.x, start_value(rows, fields, row))),
                    ..before
                }
            } else {
                before
            },
            None => before,
        }
    }
}

/// The panel once the finger that drags has left, where it has.
pub open spec fn lifted(p: PanelView, ended: Seq<Touch>) -> PanelView {
    match p.drag {
        Some((id, _, _)) => if has_id(ended, id) {
            PanelView { drag: None, touch_row: None, ..p }
        } else {
            p
        },
        None => p,
    }
}

/// A drag that is going on.
pub struct Drag {
    /// The leaf, by its place in the list.
    pub field: int,
    /// The value that it began from.
    pub start: F32,
    /// Where the finger went down.
    pub from: F32,
    /// Where it is.
    pub to: F32,
}

/// The drag that is going on, if one is.
pub open spec fn dragging(p: PanelView, rows: Seq<Row>, input: Input) -> Option<Drag> {
    match (p.drag, p.touch_row) {
        (Some((id, from, start)), Some(row)) => match live_touch(input.live@, id) {
            Some(touch) => if row < rows.len() {
                match rows[row as int] {
                    Row::Field(i) => Some(Drag { field: i as int, start, from, to: touch.pos.x }),
                    Row::Group(_) => None,
                }
            } else {
                None
            },
            None => None,
        },
        _ => None,
    }
}

/// The edit that a drag asks for, where the leaf is a number.
pub open spec fn swept(f: TweakFieldView, d: Drag) -> Option<ActionView> {
    match f.value {
        ValueView::Float(_) => Some(
            ActionView::Sweep {
                path: f.path,
                start: d.start,
                from: d.from,
                to: d.to,
                range: f.range,
                whole: false,
            },
        ),
        ValueView::Int(_) => Some(
            ActionView::Sweep {
                path: f.path,
                start: d.start,
                from: d.from,
                to: d.to,
                range: f.range,
                whole: true,
            },
        ),
        _ => None,
    }
}

/// The row that a line of the screen shows.
pub(crate) fn row_at(scroll: usize, count: usize, line: Option<usize>) -> (r: Option<usize>)
    ensures
        match r {
            Some(row) => row_on(scroll as int, count as int, line) == Some(row as int),
            None => row_on(scroll as int, count as int, line) is None,
        },
{
    match line {
        Some(k) => if scroll < count && k < count - scroll {
            Some(scroll + k)
        } else {
            None
        },
        None => None,
    }
}

/// Whether a finger's `x` is over the panel.
fn over_panel(x: F32) -> (r: bool)
    ensures
        r == on_panel(x),
{
    !x.lt(F32(MARGIN_BITS)) && !F32(RIGHT_BITS).lt(x)
}

/// Every row of a leaf names one that is listed.
proof fn rows_name_fields(collapsed: Seq<usize>, fields: Seq<TweakFieldView>, n: int)
    requires
        0 <= n <= fields.len() <= usize::MAX,
    ensures
        forall|k: int|
            0 <= k < rows_of(collapsed, fields, n).len() ==> ((#[trigger] rows_of(
                collapsed,
                fields,
                n,
            )[k]) matches Row::Field(i) ==> i < n),
    decreases n,
{
    if n > 0 {
        rows_name_fields(collapsed, fields, n - 1);
        let before = rows_of(collapsed, fields, n - 1);
        let after = rows_of(collapsed, fields, n);
        assert forall|k: int| 0 <= k < after.len() implies ((#[trigger] after[k]) matches Row::Field(
            i,
        ) ==> i < n) by {
            if k < before.len() {
                assert(after[k] == before[k]);
            }
        }
    }
}

/// Every leaf that a row names is listed.
pub open spec fn rows_fit(rows: Seq<Row>, n: int) -> bool {
    forall|k: int| 0 <= k < rows.len() ==> ((#[trigger] rows[k]) matches Row::Field(i) ==> i < n)
}

/// The edit that a drag asks for.
fn sweep(field: &TweakField, start: F32, from: F32, to: F32) -> (r: Option<Action>)
    ensures
        forall|at: int|
            asked(r) == #[trigger] swept(field@, Drag { field: at, start, from, to }),
{
    let whole: bool = match field.value {
        TweakValue::Float(_) => false,
        TweakValue::Int(_) => true,
        _ => {
            return None;
        },
    };
    Some(Action::Sweep { path: field.path.clone(), start, from, to, range: field.range, whole })
}

/// Take the new fingers, and let go of one that left.
fn take_fingers(
    panel: &mut TweakPanel,
    fields: &Vec<TweakField>,
    rows: &Vec<Row>,
    input: &Input,
    lines: &Vec<Option<usize>>,
)
    requires
        lines@.len() == input.started@.len(),
        rows_fit(rows@, fields@.len() as int),
        old(panel)@.cursor < rows@.len(),
    ensures
        final(panel)@ == lifted(
            tapped(
                old(panel)@,
                field_views(fields@),
                rows@,
                input.started@,
                lines@,
                lines@.len() as int,
            ),
            input.ended@,
        ),
        final(panel)@.cursor < rows@.len(),
{
    let ghost start = panel@;
    let ghost seen = field_views(fields@);
    let mut i: usize = 0;
    while i < input.started.len()
        invariant
            i <= input.started@.len() == lines@.len(),
            seen == field_views(fields@),
            rows_fit(rows@, fields@.len() as int),
            panel@ == tapped(start, seen, rows@, input.started@, lines@, i as int),
            panel@.scroll == start.scroll,
            panel@.cursor < rows@.len(),
        decreases input.started@.len() - i,
    {
        let touch: Touch = input.started[i];
        if let Some(row) = row_at(panel.scroll, rows.len(), lines[i]) {
            if over_panel(touch.pos.x) {
                let value: F32 = match rows[row] {
                    Row::Field(at) => {
                        proof {
                            assert(rows@[row as int] == Row::Field(at));
                            assert(seen[at as int] == fields@[at as int]@);
                        }
                        match fields[at].value {
                            TweakValue::Float(v) => v,
                            TweakValue::Int(v) => F32::from_i64(v),
                            _ => F32(0),
                        }
                    },
                    Row::Group(_) => F32(0),
                };
                panel.cursor = row;
                panel.touch_row = Some(row);
                panel.drag = Some((touch.id, touch.pos.x, value));
            }
        }
        i = i + 1;
    }
    if let Some((id, _, _)) = panel.drag {
        if input.touch_ended(id) {
            panel.drag = None;
            panel.touch_row = None;
        }
    }
}

// ---------------------------------------------------------------------------
// A tick
// ---------------------------------------------------------------------------

/// The cursor moved into the list, then up and down, round and round.
pub open spec fn cursor_moved(cursor: int, count: int, up: bool, down: bool) -> int {
    let clamped = if cursor < count {
        cursor
    } else {
        count - 1
    };
    let risen = if up {
        (clamped + count - 1) % count
    } else {
        clamped
    };
    if down {
        (risen + 1) % count
    } else {
        risen
    }
}

/// The cursor moved into the list, and by the arrow keys.
pub open spec fn cursor_keyed(cursor: int, count: int, input: Input) -> int {
    cursor_moved(
        cursor,
        count,
        was_pressed(input.keys@, Key::Up),
        was_pressed(input.keys@, Key::Down),
    )
}

/// The panel once the cursor has moved and the fingers are taken.
pub open spec fn settled(
    p: PanelView,
    fields: Seq<TweakFieldView>,
    input: Input,
    lines: Seq<Option<usize>>,
) -> PanelView {
    let rows = all_rows(p.collapsed, fields);
    let moved = PanelView { cursor: cursor_keyed(p.cursor, rows.len() as int, input), ..p };
    lifted(tapped(moved, fields, rows, input.started@, lines, lines.len() as int), input.ended@)
}

/// How far the arrows go: by the modifier that is held.
pub open spec fn pace_held(input: Input) -> Pace {
    if is_held(input.keys@, Key::Shift) {
        Pace::Coarse
    } else if is_held(input.keys@, Key::Ctrl) {
        Pace::Fine
    } else {
        Pace::One
    }
}

/// What the keys do to a panel that has settled, and what they ask for.
pub open spec fn keyed(p: PanelView, fields: Seq<TweakFieldView>, rows: Seq<Row>, input: Input) -> (
    PanelView,
    Option<ActionView>,
) {
    let keys = input.keys@;
    match rows[p.cursor] {
        Row::Group(root) => if was_pressed(keys, Key::Tab) || was_pressed(keys, Key::Enter) {
            (
                PanelView {
                    collapsed: folded(p.collapsed, root, !p.collapsed.contains(root)),
                    ..p
                },
                None,
            )
        } else {
            (p, None)
        },
        Row::Field(i) => {
            let f = fields[i as int];
            let up = was_pressed(keys, Key::Right);
            if was_pressed(keys, Key::Tab) {
                (PanelView { collapsed: folded(p.collapsed, f.root as usize, true), ..p }, None)
            } else if was_pressed(keys, Key::R) {
                (p, Some(ActionView::Reset(f.path)))
            } else if was_pressed(keys, Key::Enter) {
                (p, activated(f))
            } else if up == was_pressed(keys, Key::Left) {
                (p, None)
            } else {
                (p, stepped(f, up, pace_held(input)))
            }
        },
    }
}

/// The drag that a tick finds going on, if there is one.
pub open spec fn drag_in(
    p: PanelView,
    fields: Seq<TweakFieldView>,
    input: Input,
    lines: Seq<Option<usize>>,
) -> Option<Drag> {
    let rows = all_rows(p.collapsed, fields);
    if rows.len() == 0 {
        None
    } else {
        dragging(settled(p, fields, input, lines), rows, input)
    }
}

/// What a tick does and asks for. `far` is whether the finger that drags has gone
/// a pixel or more.
pub open spec fn decided(
    p: PanelView,
    fields: Seq<TweakFieldView>,
    input: Input,
    lines: Seq<Option<usize>>,
    far: bool,
) -> (PanelView, Option<ActionView>) {
    let rows = all_rows(p.collapsed, fields);
    if rows.len() == 0 {
        (PanelView { cursor: 0, ..p }, None)
    } else {
        let now = settled(p, fields, input, lines);
        match dragging(now, rows, input) {
            Some(d) => if far && swept(fields[d.field], d) is Some {
                (now, swept(fields[d.field], d))
            } else {
                keyed(now, fields, rows, input)
            },
            None => keyed(now, fields, rows, input),
        }
    }
}

/// Whether a tick makes `after` of a panel and asks for `got`. `moved` says whether the
/// finger that drags has gone a pixel or more.
pub open spec fn decides<M: Fn(F32, F32) -> bool>(
    p: PanelView,
    fields: Seq<TweakFieldView>,
    input: Input,
    lines: Seq<Option<usize>>,
    moved: M,
    after: PanelView,
    got: Option<ActionView>,
) -> bool {
    match drag_in(p, fields, input, lines) {
        Some(d) => exists|far: bool|
            #![trigger moved.ensures((d.to, d.from), far)]
            moved.ensures((d.to, d.from), far) && (after, got) == decided(
                p,
                fields,
                input,
                lines,
                far,
            ),
        None => (after, got) == decided(p, fields, input, lines, false),
    }
}

/// Whether the keys ask for a step: one of the arrows, and none of the keys that
/// come before it.
pub open spec fn asks_a_step(input: Input) -> bool {
    let keys = input.keys@;
    &&& was_pressed(keys, Key::Right) != was_pressed(keys, Key::Left)
    &&& !was_pressed(keys, Key::Tab)
    &&& !was_pressed(keys, Key::R)
    &&& !was_pressed(keys, Key::Enter)
}

/// Whether the leaf under the cursor has room for a step, where the keys ask for
/// one.
pub open spec fn room_under_cursor(
    p: PanelView,
    fields: Seq<TweakFieldView>,
    input: Input,
    lines: Seq<Option<usize>>,
) -> bool {
    let rows = all_rows(p.collapsed, fields);
    rows.len() > 0 && asks_a_step(input) ==> (rows[settled(
        p,
        fields,
        input,
        lines,
    ).cursor] matches Row::Field(i) ==> has_room(
        fields[i as int],
        was_pressed(input.keys@, Key::Right),
    ))
}

/// The cursor moved into the list, then up and down.
pub(crate) fn move_cursor(cursor: usize, count: usize, up: bool, down: bool) -> (r: usize)
    requires
        count > 0,
    ensures
        r == cursor_moved(cursor as int, count as int, up, down),
        r < count,
{
    let mut at: usize = if cursor < count {
        cursor
    } else {
        count - 1
    };
    if up {
        proof {
            if at > 0 {
                vstd::arithmetic::div_mod::lemma_mod_add_multiples_vanish(at - 1, count as int);
                vstd::arithmetic::div_mod::lemma_small_mod((at - 1) as nat, count as nat);
            } else {
                vstd::arithmetic::div_mod::lemma_small_mod((count - 1) as nat, count as nat);
            }
        }
        at = if at > 0 {
            at - 1
        } else {
            count - 1
        };
    }
    if down {
        proof {
            if at + 1 < count {
                vstd::arithmetic::div_mod::lemma_small_mod((at + 1) as nat, count as nat);
            } else {
                vstd::arithmetic::div_mod::lemma_mod_self_0(count as int);
            }
        }
        at = if at + 1 < count {
            at + 1
        } else {
            0
        };
    }
    at
}

/// What the keys do, and what they ask for.
fn press(panel: &mut TweakPanel, fields: &Vec<TweakField>, rows: &Vec<Row>, input: &Input) -> (r:
    Option<Action>)
    requires
        old(panel)@.cursor < rows@.len(),
        rows_fit(rows@, fields@.len() as int),
        asks_a_step(*input) ==> (rows@[old(panel)@.cursor] matches Row::Field(i) ==> has_room(
            field_views(fields@)[i as int],
            was_pressed(input.keys@, Key::Right),
        )),
    ensures
        (final(panel)@, asked(r)) == keyed(old(panel)@, field_views(fields@), rows@, *input),
{
    let fold: bool = input.just_pressed(Key::Tab);
    match rows[panel.cursor] {
        Row::Group(root) => {
            if fold || input.just_pressed(Key::Enter) {
                let collapsed: bool = panel.is_collapsed(root);
                panel.set_collapsed(root, !collapsed);
            }
            None
        },
        Row::Field(index) => {
            proof {
                assert(rows@[panel.cursor as int] == Row::Field(index));
                assert(field_views(fields@)[index as int] == fields@[index as int]@);
            }
            let field: &TweakField = &fields[index];
            if fold {
                panel.set_collapsed(field.root, true);
                return None;
            }
            if input.just_pressed(Key::R) {
                return Some(Action::Reset(field.path.clone()));
            }
            if input.just_pressed(Key::Enter) {
                return activate(field);
            }
            let up: bool = input.just_pressed(Key::Right);
            if up == input.just_pressed(Key::Left) {
                return None;
            }
            let pace: Pace = if input.held(Key::Shift) {
                Pace::Coarse
            } else if input.held(Key::Ctrl) {
                Pace::Fine
            } else {
                Pace::One
            };
            step(field, up, pace)
        },
    }
}

/// Whether [`decide`] can step the leaf that the keys ask it to step: not past the
/// last `i64`, nor before the first.
pub fn can_step(
    panel: &TweakPanel,
    fields: &Vec<TweakField>,
    input: &Input,
    lines: &Vec<Option<usize>>,
) -> (r: bool)
    requires
        lines@.len() == input.started@.len(),
    ensures
        r == room_under_cursor(panel@, field_views(fields@), *input, lines@),
{
    let right: bool = input.just_pressed(Key::Right);
    if right == input.just_pressed(Key::Left) || input.just_pressed(Key::Tab) || input.just_pressed(
        Key::R,
    ) || input.just_pressed(Key::Enter) {
        return true;
    }
    let ghost seen = field_views(fields@);
    let rows: Vec<Row> = panel.rows(fields);
    let count: usize = fields.len();
    proof {
        assert(seen.len() == count);
        rows_name_fields(panel@.collapsed, seen, seen.len() as int);
    }
    if rows.len() == 0 {
        return true;
    }
    let mut next = TweakPanel {
        open: panel.open,
        cursor: panel.cursor,
        collapsed: panel.collapsed.clone(),
        drag: panel.drag,
        touch_row: panel.touch_row,
        scroll: panel.scroll,
    };
    proof {
        assert(next.collapsed@ =~= panel.collapsed@);
    }
    let up: bool = input.just_pressed(Key::Up);
    let down: bool = input.just_pressed(Key::Down);
    next.cursor = move_cursor(next.cursor, rows.len(), up, down);
    take_fingers(&mut next, fields, &rows, input, lines);
    proof {
        assert(next@ == settled(panel@, seen, *input, lines@));
    }
    match rows[next.cursor] {
        Row::Group(_) => true,
        Row::Field(index) => {
            proof {
                assert(rows@[next.cursor as int] == Row::Field(index));
                assert(seen[index as int] == fields@[index as int]@);
            }
            match fields[index].value {
                TweakValue::Int(v) => if right {
                    v < i64::MAX
                } else {
                    v > i64::MIN
                },
                _ => true,
            }
        },
    }
}

/// One tick of the panel: move the cursor, take the fingers, fold a group, or ask
/// for an edit.
///
/// `lines` has the line of the list that each new finger is on, and `moved` says
/// of two places on the screen whether they are a pixel or more apart: both take
/// arithmetic on positions, and are the caller's part.
pub fn decide<M: Fn(F32, F32) -> bool>(
    panel: &mut TweakPanel,
    fields: &Vec<TweakField>,
    input: &Input,
    lines: &Vec<Option<usize>>,
    moved: M,
) -> (r: Option<Action>)
    requires
        lines@.len() == input.started@.len(),
        room_under_cursor(old(panel)@, field_views(fields@), *input, lines@),
        forall|to: F32, from: F32| #[trigger] moved.requires((to, from)),
    ensures
        decides(
            old(panel)@,
            field_views(fields@),
            *input,
            lines@,
            moved,
            final(panel)@,
            asked(r),
        ),
{
    let ghost start = panel@;
    let ghost seen = field_views(fields@);
    let rows: Vec<Row> = panel.rows(fields);
    let count: usize = fields.len();
    proof {
        assert(seen.len() == count);
        rows_name_fields(start.collapsed, seen, seen.len() as int);
    }
    if rows.len() == 0 {
        panel.cursor = 0;
        return None;
    }
    let up: bool = input.just_pressed(Key::Up);
    let down: bool = input.just_pressed(Key::Down);
    panel.cursor = move_cursor(panel.cursor, rows.len(), up, down);
    take_fingers(panel, fields, &rows, input, lines);
    let ghost now = panel@;
    proof {
        assert(now == settled(start, seen, *input, lines@));
    }
    if let (Some((id, from, value)), Some(row)) = (panel.drag, panel.touch_row) {
        if let Some(touch) = input.touch(id) {
            if row < rows.len() {
                if let Row::Field(index) = rows[row] {
                    let to: F32 = touch.pos.x;
                    let far: bool = moved(to, from);
                    let field: &TweakField = &fields[index];
                    proof {
                        assert(dragging(now, rows@, *input) == Some(
                            Drag { field: index as int, start: value, from, to },
                        ));
                        assert(seen[index as int] == field@);
                        assert(drag_in(start, seen, *input, lines@) == dragging(now, rows@, *input));
                    }
                    let swipe: Option<Action> = if far {
                        sweep(field, value, from, to)
                    } else {
                        None
                    };
                    let result: Option<Action> = match swipe {
                        Some(action) => Some(action),
                        None => press(panel, fields, &rows, input),
                    };
                    proof {
                        let d = drag_in(start, seen, *input, lines@)->0;
                        assert(moved.ensures((d.to, d.from), far));
                        assert((panel@, asked(result)) == decided(
                            start,
                            seen,
                            *input,
                            lines@,
                            far,
                        ));
                    }
                    return result;
                }
            }
        }
    }
    press(panel, fields, &rows, input)
}

/// One tick of the panel against a world: nothing where it is closed or there is
/// no input, else what [`decide`] makes of the leaves that the world has.
pub fn panel_input<M: Fn(F32, F32) -> bool>(
    panel: &mut TweakPanel,
    world: &World,
    input: Option<&Input>,
    lines: &Vec<Option<usize>>,
    moved: M,
) -> (r: Option<Action>)
    requires
        world.wf(),
        input matches Some(i) ==> old(panel)@.open ==> lines@.len() == i.started@.len()
            && room_under_cursor(old(panel)@, listed_fields(world@), *i, lines@),
        forall|to: F32, from: F32| #[trigger] moved.requires((to, from)),
    ensures
        ({
            let p = old(panel)@;
            let got = (final(panel)@, asked(r));
            match input {
                Some(i) => if p.open {
                    let seen = listed_fields(world@);
                    decides(p, seen, *i, lines@, moved, got.0, got.1)
                } else {
                    got == (p, None::<ActionView>)
                },
                None => got == (p, None::<ActionView>),
            }
        }),
{
    if !panel.open {
        return None;
    }
    match input {
        Some(input) => {
            let fields: Vec<TweakField> = fields_of(world);
            decide(panel, &fields, input, lines, moved)
        },
        None => None,
    }
}

/// Carry out what the panel asked for: put a value in a leaf and record it, or put
/// the leaf back. An edit that does not land changes nothing, and that is all.
pub fn carry_out(world: &mut World, path: &str, value: Option<TweakValue>)
    requires
        old(world).wf(),
        match value {
            Some(v) => bounds_ok(tunables(old(world)@).roots, old(world)@.targets, path@, v@),
            None => clear_bounds_ok(old(world)@, path@),
        },
    ensures
        final(world).wf(),
        final(world)@ == (match value {
            Some(v) => recorded(old(world)@, path@, v@).0,
            None => cleared(old(world)@, path@).0,
        }),
{
    match value {
        Some(v) => {
            let _ = set_and_record(world, path, v);
        },
        None => {
            let _ = clear(world, path);
        },
    }
}

// ---------------------------------------------------------------------------
// Drawing
// ---------------------------------------------------------------------------

/// A colour of the panel.
#[derive(Clone, Copy, Debug, PartialEq, Eq, Structural)]
pub enum Shade {
    Text,
    Dim,
    /// A value that is off its authored setting.
    Overridden,
}

/// One thing to paint. Lines count from the title's, which is the first.
#[derive(Debug, PartialEq)]
pub enum Paint {
    /// The box behind everything, so many lines high.
    Frame { lines: usize },
    /// The highlight of the row that the cursor is on.
    Cursor { line: usize },
    /// Text from the left.
    Label { line: usize, indent: bool, text: String, shade: Shade },
    /// Text up to the right edge.
    Value { line: usize, text: String, shade: Shade },
    /// Where a number sits in its range.
    Bar { line: usize, value: F32, range: FieldRange },
}

/// What is painted.
pub enum PaintView {
    Frame { lines: int },
    Cursor { line: int },
    Label { line: int, indent: bool, text: Seq<char>, shade: Shade },
    Value { line: int, text: Seq<char>, shade: Shade },
    Bar { line: int, value: F32, range: FieldRange },
}

impl View for Paint {
    type V = PaintView;

    open spec fn view(&self) -> PaintView {
        match self {
            Paint::Frame { lines } => PaintView::Frame { lines: *lines as int },
            Paint::Cursor { line } => PaintView::Cursor { line: *line as int },
            Paint::Label { line, indent, text, shade } => PaintView::Label {
                line: *line as int,
                indent: *indent,
                text: text@,
                shade: *shade,
            },
            Paint::Value { line, text, shade } => PaintView::Value {
                line: *line as int,
                text: text@,
                shade: *shade,
            },
            Paint::Bar { line, value, range } => PaintView::Bar {
                line: *line as int,
                value: *value,
                range: *range,
            },
        }
    }
}

/// What is painted, in order.
pub open spec fn paint_views(s: Seq<Paint>) -> Seq<PaintView> {
    Seq::new(s.len(), |i: int| s[i]@)
}

/// How many rows are on screen.
pub open spec fn rows_shown(count: int, max_rows: int) -> int {
    if count < max_rows {
        count
    } else {
        max_rows
    }
}

/// The first row on screen: as far down as keeps the cursor on it, and no farther
/// than the list goes.
pub open spec fn first_shown(cursor: int, count: int, max_rows: int) -> int {
    let n = rows_shown(count, max_rows);
    let first = if cursor < n - 1 {
        0
    } else {
        cursor - (n - 1)
    };
    if first < count - n {
        first
    } else {
        count - n
    }
}

/// What the title says.
pub open spec fn title(overrides: int) -> Seq<char> {
    if overrides == 0 {
        "TWEAKS"@
    } else {
        "TWEAKS  ("@ + decimal(overrides as nat) + " changed)"@
    }
}

/// Leaves of a given root.
pub open spec fn rooted(root: usize) -> spec_fn(TweakFieldView) -> bool {
    |f: TweakFieldView| f.root == root
}

/// What a root's header says: an arrow, and the head of its leaves' paths.
pub open spec fn heading(collapsed: Seq<usize>, fields: Seq<TweakFieldView>, root: usize) -> Seq<
    char,
> {
    (if collapsed.contains(root) {
        "> "@
    } else {
        "v "@
    }) + (match first_where(fields, rooted(root)) {
        Some(i) => before_dot(fields[i].path),
        None => "?"@,
    })
}

/// The number that a bar shows.
pub open spec fn bar_value(v: ValueView) -> Option<F32> {
    match v {
        ValueView::Float(v) => Some(v),
        ValueView::Int(v) => Some(from_whole(v)),
        _ => None,
    }
}

/// A row, painted.
pub open spec fn row_paint(
    p: PanelView,
    fields: Seq<TweakFieldView>,
    decimals: Seq<Seq<char>>,
    row: Row,
    line: int,
    selected: bool,
) -> Seq<PaintView> {
    (if selected {
        seq![PaintView::Cursor { line }]
    } else {
        Seq::empty()
    }) + (match row {
        Row::Group(root) => seq![
            PaintView::Label {
                line,
                indent: false,
                text: heading(p.collapsed, fields, root),
                shade: Shade::Text,
            },
        ],
        Row::Field(i) => {
            let f = fields[i as int];
            let shade = if f.overridden {
                Shade::Overridden
            } else {
                Shade::Text
            };
            seq![
                PaintView::Label { line, indent: true, text: f.label, shade },
                PaintView::Value { line, text: shown(f.value, decimals[i as int]), shade },
            ] + (match bar_value(f.value) {
                Some(value) => seq![PaintView::Bar { line, value, range: f.range }],
                None => Seq::empty(),
            })
        },
    })
}

/// The first `n` rows from `first` on, painted.
pub open spec fn rows_paint(
    p: PanelView,
    fields: Seq<TweakFieldView>,
    decimals: Seq<Seq<char>>,
    rows: Seq<Row>,
    first: int,
    n: int,
) -> Seq<PaintView>
    decreases n,
{
    if n <= 0 {
        Seq::empty()
    } else {
        rows_paint(p, fields, decimals, rows, first, n - 1) + row_paint(
            p,
            fields,
            decimals,
            rows[first + n - 1],
            n,
            first + n - 1 == p.cursor,
        )
    }
}

/// The panel once it is drawn, and what is painted. `known` is whether the size of
/// the screen is.
pub open spec fn drawn(
    p: PanelView,
    fields: Seq<TweakFieldView>,
    decimals: Seq<Seq<char>>,
    known: bool,
    max_rows: int,
    overrides: int,
) -> (PanelView, Seq<PaintView>) {
    let rows = all_rows(p.collapsed, fields);
    if !p.open || !known || rows.len() == 0 {
        (p, Seq::empty())
    } else {
        let n = rows_shown(rows.len() as int, max_rows);
        let first = first_shown(p.cursor, rows.len() as int, max_rows);
        (
            PanelView { scroll: first, ..p },
            seq![
                PaintView::Frame { lines: n + 1 },
                PaintView::Label {
                    line: 0,
                    indent: false,
                    text: title(overrides),
                    shade: Shade::Dim,
                },
            ] + rows_paint(p, fields, decimals, rows, first, n),
        )
    }
}

fn write_title(overrides: usize) -> (r: String)
    ensures
        r@ == title(overrides as int),
{
    if overrides == 0 {
        "TWEAKS".to_owned()
    } else {
        let front: String = joined("TWEAKS  (", write_decimal(overrides as u64).as_str());
        joined(front.as_str(), " changed)")
    }
}

/// The head of the paths of a root's leaves.
fn root_name(fields: &Vec<TweakField>, root: usize) -> (r: String)
    ensures
        r@ == (match first_where(field_views(fields@), rooted(root)) {
            Some(i) => before_dot(field_views(fields@)[i].path),
            None => "?"@,
        }),
{
    let ghost seen = field_views(fields@);
    let mut i: usize = 0;
    while i < fields.len()
        invariant
            i <= fields@.len(),
            seen == field_views(fields@),
            none_before(seen, rooted(root), i as int),
        decreases fields@.len() - i,
    {
        if fields[i].root == root {
            proof {
                assert(seen[i as int] == fields@[i as int]@);
                first_is(seen, rooted(root), i as int);
            }
            let path: &str = fields[i].path.as_str();
            let dot: usize = find_dot(path);
            let head: String = path.substring_char(0, dot).to_owned();
            proof {
                assert(head@ =~= before_dot(path@));
            }
            return head;
        }
        proof {
            assert(seen[i as int] == fields@[i as int]@);
        }
        i = i + 1;
    }
    proof {
        first_is_none(seen, rooted(root));
    }
    "?".to_owned()
}

fn paint(out: &mut Vec<Paint>, p: Paint)
    ensures
        paint_views(final(out)@) == paint_views(old(out)@).push(p@),
{
    let ghost before = paint_views(out@);
    let ghost view = p@;
    out.push(p);
    proof {
        assert(paint_views(out@) =~= before.push(view));
    }
}

/// Paint one row.
fn paint_row(
    out: &mut Vec<Paint>,
    panel: &TweakPanel,
    fields: &Vec<TweakField>,
    decimals: &Vec<String>,
    row: Row,
    line: usize,
    selected: bool,
)
    requires
        decimals@.len() == fields@.len(),
        row matches Row::Field(i) ==> i < fields@.len(),
    ensures
        paint_views(final(out)@) == paint_views(old(out)@) + row_paint(
            panel@,
            field_views(fields@),
            views(decimals@),
            row,
            line as int,
            selected,
        ),
{
    let ghost before = paint_views(out@);
    if selected {
        paint(out, Paint::Cursor { line });
    }
    match row {
        Row::Group(root) => {
            let arrow: &str = if panel.is_collapsed(root) {
                "> "
            } else {
                "v "
            };
            let text: String = joined(arrow, root_name(fields, root).as_str());
            paint(out, Paint::Label { line, indent: false, text, shade: Shade::Text });
        },
        Row::Field(index) => {
            let field: &TweakField = &fields[index];
            proof {
                assert(field_views(fields@)[index as int] == field@);
                assert(views(decimals@)[index as int] == decimals@[index as int]@);
            }
            let shade: Shade = if field.overridden {
                Shade::Overridden
            } else {
                Shade::Text
            };
            let text: String = field.value.display(decimals[index].as_str());
            paint(out, Paint::Label { line, indent: true, text: field.label.clone(), shade });
            paint(out, Paint::Value { line, text, shade });
            match field.value {
                TweakValue::Float(v) => {
                    paint(out, Paint::Bar { line, value: v, range: field.range });
                },
                TweakValue::Int(v) => {
                    let value: F32 = F32::from_i64(v);
                    paint(out, Paint::Bar { line, value, range: field.range });
                },
                _ => {},
            }
        },
    }
    proof {
        assert(paint_views(out@) =~= before + row_paint(
            panel@,
            field_views(fields@),
            views(decimals@),
            row,
            line as int,
            selected,
        ));
    }
}

/// Paint the panel.
///
/// `decimals` has each leaf with three decimals where it is a float, `known` says
/// whether the size of the screen is, and `max_rows` how many rows fit on it.
/// Nothing is painted while the panel is closed, the screen unknown or the list
/// empty.
pub fn draw(
    panel: &mut TweakPanel,
    fields: &Vec<TweakField>,
    decimals: &Vec<String>,
    known: bool,
    max_rows: usize,
    overrides: usize,
) -> (r: Vec<Paint>)
    requires
        decimals@.len() == fields@.len(),
        1 <= max_rows < usize::MAX,
    ensures
        (final(panel)@, paint_views(r@)) == drawn(
            old(panel)@,
            field_views(fields@),
            views(decimals@),
            known,
            max_rows as int,
            overrides as int,
        ),
{
    let mut out: Vec<Paint> = Vec::new();
    let ghost start = panel@;
    let ghost seen = field_views(fields@);
    proof {
        assert(paint_views(out@) =~= Seq::empty());
    }
    if !panel.open || !known {
        return out;
    }
    let rows: Vec<Row> = panel.rows(fields);
    let count: usize = rows.len();
    if count == 0 {
        return out;
    }
    let total: usize = fields.len();
    proof {
        assert(seen.len() == total);
        rows_name_fields(start.collapsed, seen, seen.len() as int);
    }
    let n: usize = if count < max_rows {
        count
    } else {
        max_rows
    };
    let down: usize = if panel.cursor < n - 1 {
        0
    } else {
        panel.cursor - (n - 1)
    };
    let first: usize = if down < count - n {
        down
    } else {
        count - n
    };
    panel.scroll = first;
    paint(&mut out, Paint::Frame { lines: n + 1 });
    paint(
        &mut out,
        Paint::Label {
            line: 0,
            indent: false,
            text: write_title(overrides),
            shade: Shade::Dim,
        },
    );
    let ghost head = paint_views(out@);
    let mut i: usize = 0;
    proof {
        assert(head =~= head + Seq::<PaintView>::empty());
    }
    while i < n
        invariant
            i <= n,
            first + n <= count == rows@.len(),
            n < usize::MAX,
            decimals@.len() == fields@.len(),
            rows_fit(rows@, fields@.len() as int),
            seen == field_views(fields@),
            panel@ == (PanelView { scroll: first as int, ..start }),
            paint_views(out@) == head + rows_paint(
                start,
                seen,
                views(decimals@),
                rows@,
                first as int,
                i as int,
            ),
        decreases n - i,
    {
        let row: Row = rows[first + i];
        let selected: bool = first + i == panel.cursor;
        proof {
            assert(rows@[first + i] == row);
        }
        paint_row(&mut out, panel, fields, decimals, row, i + 1, selected);
        proof {
            assert(row_paint(panel@, seen, views(decimals@), row, i + 1, selected) == row_paint(
                start,
                seen,
                views(decimals@),
                row,
                i + 1,
                selected,
            ));
            assert(paint_views(out@) =~= head + rows_paint(
                start,
                seen,
                views(decimals@),
                rows@,
                first as int,
                i + 1,
            ));
        }
        i = i + 1;
    }
    proof {
        assert(head =~= seq![
            PaintView::Frame { lines: n + 1 },
            PaintView::Label {
                line: 0,
                indent: false,
                text: title(overrides as int),
                shade: Shade::Dim,
            },
        ]);
    }
    out
}

// ---------------------------------------------------------------------------
// Laws
// ---------------------------------------------------------------------------

proof fn taps_keep_in_list(
    p: PanelView,
    fields: Seq<TweakFieldView>,
    rows: Seq<Row>,
    started: Seq<Touch>,
    lines: Seq<Option<usize>>,
    n: int,
)
    requires
        0 <= p.cursor < rows.len(),
        0 <= p.scroll,
    ensures
        0 <= tapped(p, fields, rows, started, lines, n).cursor < rows.len(),
        tapped(p, fields, rows, started, lines, n).collapsed == p.collapsed,
    decreases n,
{
    if n > 0 {
        taps_keep_in_list(p, fields, rows, started, lines, n - 1);
    }
}

/// A tick leaves the cursor on a row of the list that it was shown, whatever was
/// pressed or touched and however the list has shrunk.
pub proof fn the_cursor_stays_in_the_list(
    p: PanelView,
    fields: Seq<TweakFieldView>,
    input: Input,
    lines: Seq<Option<usize>>,
    far: bool,
)
    requires
        0 <= p.cursor,
        0 <= p.scroll,
    ensures
        ({
            let rows = all_rows(p.collapsed, fields);
            let after = decided(p, fields, input, lines, far).0;
            if rows.len() == 0 {
                after.cursor == 0
            } else {
                0 <= after.cursor < rows.len()
            }
        }),
{
    let rows = all_rows(p.collapsed, fields);
    if rows.len() > 0 {
        let n = rows.len() as int;
        let moved = PanelView { cursor: cursor_keyed(p.cursor, n, input), ..p };
        taps_keep_in_list(moved, fields, rows, input.started@, lines, lines.len() as int);
    }
}

/// Drawing keeps the cursor on screen, and the screen within the list.
pub proof fn the_cursor_is_on_screen(cursor: int, count: int, max_rows: int)
    requires
        0 <= cursor < count,
        1 <= max_rows,
    ensures
        ({
            let first = first_shown(cursor, count, max_rows);
            let n = rows_shown(count, max_rows);
            0 <= first <= cursor < first + n <= count
        }),
{
}

/// A finger selects the row that is painted on the line under it: the hit test
/// scrolls with the list.
pub proof fn a_finger_finds_the_painted_row(cursor: int, count: int, max_rows: int, line: usize)
    requires
        0 <= cursor,
        0 < count,
        1 <= max_rows,
        line < rows_shown(count, max_rows),
    ensures
        ({
            let first = first_shown(cursor, count, max_rows);
            row_on(first, count, Some(line)) == Some(first + line)
        }),
{
}

/// A step up and a step down of the cursor cancel, at either end of the list too.
pub proof fn up_and_down_cancel(cursor: int, count: int)
    requires
        0 <= cursor < count,
    ensures
        cursor_moved(cursor_moved(cursor, count, true, false), count, false, true) == cursor,
        cursor_moved(cursor_moved(cursor, count, false, true), count, true, false) == cursor,
        cursor_moved(cursor, count, true, true) == cursor,
{
    vstd::arithmetic::div_mod::lemma_mod_self_0(count);
    if cursor > 0 {
        vstd::arithmetic::div_mod::lemma_mod_add_multiples_vanish(cursor - 1, count);
        vstd::arithmetic::div_mod::lemma_small_mod((cursor - 1) as nat, count as nat);
    } else {
        vstd::arithmetic::div_mod::lemma_small_mod((count - 1) as nat, count as nat);
    }
    vstd::arithmetic::div_mod::lemma_small_mod(cursor as nat, count as nat);
    if cursor + 1 < count {
        vstd::arithmetic::div_mod::lemma_small_mod((cursor + 1) as nat, count as nat);
        vstd::arithmetic::div_mod::lemma_mod_add_multiples_vanish(cursor, count);
    } else {
        vstd::arithmetic::div_mod::lemma_small_mod((count - 1) as nat, count as nat);
    }
}

/// Folding is of one root: it is folded as asked, no other is touched, and none is
/// listed twice.
pub proof fn folding_is_of_one_root(
    collapsed: Seq<usize>,
    root: usize,
    fold: bool,
    other: usize,
)
    requires
        collapsed.no_duplicates(),
        other != root,
    ensures
        folded(collapsed, root, fold).contains(root) == fold,
        folded(collapsed, root, fold).contains(other) == collapsed.contains(other),
        folded(collapsed, root, fold).no_duplicates(),
{
    let p = this_root(root);
    let after = folded(collapsed, root, fold);
    first_means(collapsed, p);
    match (fold, first_where(collapsed, p)) {
        (true, None) => {
            assert(after[collapsed.len() as int] == root);
            assert forall|i: int| 0 <= i < collapsed.len() implies after[i] == collapsed[i]
                && collapsed[i] != root by {
                assert(!p(collapsed[i]));
            }
            if collapsed.contains(other) {
                assert(after[collapsed.index_of(other)] == other);
            }
            if after.contains(other) {
                assert(collapsed[after.index_of(other)] == other);
            }
        },
        (false, Some(at)) => {
            assert forall|i: int| 0 <= i < after.len() implies after[i] == (if i < at {
                collapsed[i]
            } else {
                collapsed[i + 1]
            }) by {}
            if collapsed.contains(other) {
                let i = collapsed.index_of(other);
                if i < at {
                    assert(after[i] == other);
                } else {
                    assert(after[i - 1] == other);
                }
            }
            if after.contains(other) {
                let i = after.index_of(other);
                if i < at {
                    assert(collapsed[i] == other);
                } else {
                    assert(collapsed[i + 1] == other);
                }
            }
            if after.contains(root) {
                let i = after.index_of(root);
                if i < at {
                    assert(collapsed[i] == root && collapsed[at] == root);
                } else {
                    assert(collapsed[i + 1] == root && collapsed[at] == root);
                }
            }
        },
        (true, Some(at)) => {
            assert(collapsed[at] == root);
        },
        (false, None) => {
            if collapsed.contains(root) {
                assert(!p(collapsed[collapsed.index_of(root)]));
            }
        },
    }
}

} // verus!
