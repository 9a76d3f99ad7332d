//! What the inspector is for: what is said goes to the row under the cursor, what is
//! dragged goes to the row it began on, and every row is shown as what it is.

use vstd::prelude::*;
use crate::float::{F32, F64, INFINITY_BITS, ONE_BITS, Vec3, below, magnitude, same_value};
use crate::input::{Input, Key, has_id, is_held, live_touch, was_pressed};
use crate::inspect_panel::{
    EditView, InspectPanel, Origin, PaintView, PanelNav, Place, RowView, WidgetView, channel,
    decided, decides, drag_in, drawn, keys_say, moved_cursor, row_paint, rows_paint, settled,
    swatch, tapped, value_shown,
};
use crate::panel_laws::the_arrows_move_by_one;
use crate::tweak_panel::{first_shown, next_choice, rows_shown};
use crate::text::{hex, signed_decimal};

verus! {

/// The keyboard says what its keys are for: the arrows move and step, Enter activates, and
/// Shift makes ten of a step, Ctrl a tenth. It never sweeps.
pub proof fn the_keys_say_what_they_are_for(input: Input)
    ensures
        ({
            let keys = input.keys@;
            let nav = keys_say(input);
            &&& nav.up == was_pressed(keys, Key::Up)
            &&& nav.down == was_pressed(keys, Key::Down)
            &&& nav.dec == was_pressed(keys, Key::Left)
            &&& nav.inc == was_pressed(keys, Key::Right)
            &&& nav.activate == was_pressed(keys, Key::Enter)
            &&& nav.fold == was_pressed(keys, Key::Tab)
            &&& nav.reset == was_pressed(keys, Key::R)
            &&& is_held(keys, Key::Shift) ==> nav.scale == F32(0x4120_0000)
            &&& !is_held(keys, Key::Shift) && is_held(keys, Key::Ctrl) ==> nav.scale == F32(
                0x3dcc_cccd,
            )
            &&& !is_held(keys, Key::Shift) && !is_held(keys, Key::Ctrl) ==> nav.scale == F32(
                0x3f80_0000,
            )
            &&& nav.sweep == F32(0)
        }),
{
}

/// Whether `got` is the next of some options, or the one before, for `path`; or nothing
/// where there are none.
pub open spec fn turns(
    path: Seq<Seq<char>>,
    selected: Seq<char>,
    options: Seq<Seq<char>>,
    up: bool,
    got: Option<(Seq<Seq<char>>, EditView)>,
) -> bool {
    if options.len() == 0 {
        got is None
    } else {
        got == Some((path, EditView::Variant(next_choice(options, selected, up))))
    }
}

/// Whether `got` is what Enter asks of a row.
pub open spec fn enters_the_row(row: RowView, got: Option<(Seq<Seq<char>>, EditView)>) -> bool {
    match row.widget {
        WidgetView::Bool { value } => got == Some((row.path, EditView::Bool(!value))),
        WidgetView::Seed { value } => got == Some((row.path, EditView::Reroll(value))),
        WidgetView::Choice { selected, options } => turns(row.path, selected, options, true, got),
        WidgetView::Variant { selected, options } => turns(row.path, selected, options, true, got),
        _ => got is None,
    }
}

/// Whether `got` is what a step asks of a row.
pub open spec fn steps_the_row(
    row: RowView,
    up: bool,
    scale: F32,
    got: Option<(Seq<Seq<char>>, EditView)>,
) -> bool {
    match row.widget {
        WidgetView::Float { value, range } => got == Some(
            (row.path, EditView::Nudge { value, range, up, scale }),
        ),
        WidgetView::Int { value, range: _ } => got == Some(
            (
                row.path,
                EditView::Int(
                    (if up {
                        value + 1
                    } else {
                        value - 1
                    }) as i64,
                ),
            ),
        ),
        WidgetView::Choice { selected, options } => turns(row.path, selected, options, up, got),
        WidgetView::Variant { selected, options } => turns(row.path, selected, options, up, got),
        _ => got is None,
    }
}

/// Whether `got` is what a stick's sweep asks of a row: numbers glide, and nothing else
/// does.
pub open spec fn sweeps_the_row(
    row: RowView,
    amount: F32,
    got: Option<(Seq<Seq<char>>, EditView)>,
) -> bool {
    match row.widget {
        WidgetView::Float { value, range } => got == Some(
            (row.path, EditView::Glide { value: Origin::Float(value), range, amount }),
        ),
        WidgetView::Int { value, range } => got == Some(
            (row.path, EditView::Glide { value: Origin::Whole(value), range, amount }),
        ),
        _ => got is None,
    }
}

/// What is said goes to the row that the cursor has come to: Enter before a step, a step
/// before a sweep. A sweep keeps what it has earned only while the cursor stays and the
/// stick is held.
pub proof fn what_is_said_goes_to_the_row_under_the_cursor(
    p: InspectPanel,
    rows: Seq<RowView>,
    nav: PanelNav,
    input: Input,
    place: Place,
    far: bool,
)
    requires
        0 < rows.len() <= usize::MAX,
        p.drag is None,
        input.started@.len() == 0,
    ensures
        ({
            let count = rows.len() as int;
            let (after, got) = decided(p, rows, nav, input, Seq::empty(), place, far);
            let from = if p.cursor < count {
                p.cursor as int
            } else {
                count - 1
            };
            let row = rows[after.cursor as int];
            &&& after.cursor < count
            &&& nav.up == nav.down ==> after.cursor == from
            &&& nav.up && !nav.down ==> after.cursor == from - 1 || (from == 0 && after.cursor
                == count - 1)
            &&& nav.down && !nav.up ==> after.cursor == from + 1 || (from == count - 1
                && after.cursor == 0)
            &&& after.open == p.open && after.scroll == p.scroll && after.drag is None
            &&& after.cursor != from || same_value(nav.sweep, F32(0)) ==> after.sweep_carry == F64(0)
            &&& after.cursor == from && !same_value(nav.sweep, F32(0)) ==> after.sweep_carry
                == p.sweep_carry
            &&& if nav.activate {
                enters_the_row(row, got)
            } else if nav.inc != nav.dec {
                steps_the_row(row, nav.inc, nav.scale, got)
            } else if !same_value(nav.sweep, F32(0)) {
                sweeps_the_row(row, nav.sweep, got)
            } else {
                got is None
            }
        }),
{
    let count = rows.len() as int;
    the_arrows_move_by_one(p.cursor as int, count, nav.up, nav.down);
    the_arrows_move_by_one(p.cursor as int, count, false, false);
}

/// A finger that comes down on a row of the panel takes it: the cursor goes there, and the
/// finger drags it from where it is and from the number it has. One beside the panel or
/// below the list does nothing, nor does any while the screen is unknown.
pub proof fn a_finger_takes_the_row_under_it(
    p: InspectPanel,
    rows: Seq<RowView>,
    nav: PanelNav,
    input: Input,
    line: Option<usize>,
    place: Place,
    far: bool,
)
    requires
        0 < rows.len() <= usize::MAX,
        input.started@.len() == 1,
        input.ended@.len() == 0,
    ensures
        ({
            let touch = input.started@[0];
            let after = decided(p, rows, nav, input, seq![line], place, far).0;
            let over = place.known && !below(touch.pos.x, place.left) && !below(
                place.right,
                touch.pos.x,
            ) && line is Some && p.scroll + line->0 < rows.len();
            let row = rows[p.scroll + line->0];
            &&& over ==> after.cursor == p.scroll + line->0 && after.touch_row == Some(after.cursor)
            &&& over ==> after.drag is Some && (after.drag->0).0 == touch.id && (after.drag->0).1
                == touch.pos.x
            &&& over && row.widget is Float ==> (after.drag->0).2 == Origin::Float(
                row.widget->Float_value,
            )
            &&& over && row.widget is Int ==> (after.drag->0).2 == Origin::Whole(
                row.widget->Int_value,
            )
            &&& over && !(row.widget is Float) && !(row.widget is Int) ==> (after.drag->0).2
                == Origin::Nothing
            &&& !over ==> after.drag == p.drag && after.touch_row == p.touch_row
        }),
{
    let lines = seq![line];
    let moved = moved_cursor(p, rows.len() as int, nav);
    assert(lines[0] == line);
    assert(tapped(moved, rows, input.started@, lines, place, 0) == moved);
    let one = tapped(moved, rows, input.started@, lines, place, 1);
    if place.known {
        assert(settled(p, rows, nav, input, lines, place) == one) by {
            match one.drag {
                Some((id, _, _)) => {
                    assert(!has_id(input.ended@, id));
                },
                None => {},
            }
        }
    }
}

/// A finger that has gone far enough drags the number of the row that it took, from what
/// it had, over the row's own range.
pub proof fn a_drag_is_of_the_row_it_began_on(
    p: InspectPanel,
    rows: Seq<RowView>,
    nav: PanelNav,
    input: Input,
    place: Place,
    id: u64,
    from: F32,
    origin: Origin,
    row: usize,
)
    requires
        row < rows.len() <= usize::MAX,
        place.known,
        input.started@.len() == 0,
        p.drag == Some((id, from, origin)),
        p.touch_row == Some(row),
        !has_id(input.ended@, id),
        live_touch(input.live@, id) is Some,
    ensures
        ({
            let (after, got) = decided(p, rows, nav, input, Seq::empty(), place, true);
            let to = (live_touch(input.live@, id)->0).pos.x;
            let at = rows[row as int];
            &&& after.drag == p.drag
            &&& at.widget matches WidgetView::Float { value: _, range } ==> got == Some(
                (at.path, EditView::Drag { origin, from, to, range, whole: false }),
            )
            &&& at.widget matches WidgetView::Int { value: _, range } ==> got == Some(
                (at.path, EditView::Drag { origin, from, to, range, whole: true }),
            )
        }),
{
}

/// A finger that leaves has let go.
pub proof fn a_finger_that_leaves_lets_go(
    p: InspectPanel,
    rows: Seq<RowView>,
    nav: PanelNav,
    input: Input,
    place: Place,
    far: bool,
)
    requires
        0 < rows.len() <= usize::MAX,
        place.known,
        input.started@.len() == 0,
        p.drag is Some,
        has_id(input.ended@, (p.drag->0).0),
    ensures
        decided(p, rows, nav, input, Seq::empty(), place, far).0.drag is None,
        decided(p, rows, nav, input, Seq::empty(), place, far).0.touch_row is None,
{
}

/// A tick does what it decides on, with the drag that it finds as far as the finger went.
pub proof fn a_tick_does_what_it_decides<M: Fn(F32, F32) -> bool>(
    p: InspectPanel,
    rows: Seq<RowView>,
    nav: PanelNav,
    input: Input,
    lines: Seq<Option<usize>>,
    place: Place,
    moved: M,
    after: InspectPanel,
    got: Option<(Seq<Seq<char>>, EditView)>,
)
    requires
        decides(p, rows, nav, input, lines, place, moved, after, got),
    ensures
        exists|far: bool|
            (after, got) == #[trigger] decided(p, rows, nav, input, lines, place, far),
        got is Some && (got->0).1 is Drag ==> moved.ensures(
            ((got->0).1->to, (got->0).1->from),
            true,
        ),
{
    match drag_in(p, rows, nav, input, lines, place) {
        Some(d) => {
            let far = choose|far: bool|
                #![trigger moved.ensures((d.to, d.from), far)]
                moved.ensures((d.to, d.from), far) && (after, got) == decided(
                    p,
                    rows,
                    nav,
                    input,
                    lines,
                    place,
                    far,
                );
            assert((after, got) == decided(p, rows, nav, input, lines, place, far));
        },
        None => {
            assert((after, got) == decided(p, rows, nav, input, lines, place, false));
        },
    }
}

/// Whether a row has its content in the rows below, or none that can be edited.
pub open spec fn has_no_content(w: WidgetView) -> bool {
    w is Group || w is Vector || w is Color || w is Unsupported
}

/// Whether `x` is part of a row, painted on a line of its own.
pub open spec fn is_part_of(
    row: RowView,
    decimals: Seq<char>,
    line: int,
    selected: bool,
    x: PaintView,
) -> bool {
    ||| selected && x == (PaintView::Cursor { line })
    ||| x == (PaintView::Label {
        line,
        depth: row.depth,
        text: row.label,
        dim: has_no_content(row.widget),
    })
    ||| value_shown(row.widget, decimals) is Some && x == (PaintView::Value {
        line,
        text: value_shown(row.widget, decimals)->0,
        dim: has_no_content(row.widget),
    })
    ||| match row.widget {
        WidgetView::Float { value, range } => x == (PaintView::Bar {
            line,
            value: Origin::Float(value),
            range,
        }),
        WidgetView::Int { value, range } => x == (PaintView::Bar {
            line,
            value: Origin::Whole(value),
            range,
        }),
        WidgetView::Color { value } => x == (PaintView::Swatch { line, color: swatch(value) }),
        _ => false,
    }
}

proof fn a_row_is_painted(
    row: RowView,
    decimals: Seq<char>,
    line: int,
    selected: bool,
    x: PaintView,
)
    ensures
        row_paint(row, decimals, line, selected).contains(x) <==> is_part_of(
            row,
            decimals,
            line,
            selected,
            x,
        ),
{
    let s = row_paint(row, decimals, line, selected);
    let dim = has_no_content(row.widget);
    let at: int = if selected {
        1
    } else {
        0
    };
    let behind: int = if value_shown(row.widget, decimals) is Some {
        at + 2
    } else {
        at + 1
    };
    if selected {
        assert(s[0] == (PaintView::Cursor { line }));
    }
    assert(s[at] == (PaintView::Label { line, depth: row.depth, text: row.label, dim }));
    if value_shown(row.widget, decimals) is Some {
        assert(s[at + 1] == (PaintView::Value {
            line,
            text: value_shown(row.widget, decimals)->0,
            dim,
        }));
    }
    match row.widget {
        WidgetView::Float { value, range } => {
            assert(s.len() == behind + 1);
            assert(s[behind] == (PaintView::Bar { line, value: Origin::Float(value), range }));
        },
        WidgetView::Int { value, range } => {
            assert(s.len() == behind + 1);
            assert(s[behind] == (PaintView::Bar { line, value: Origin::Whole(value), range }));
        },
        WidgetView::Color { value } => {
            assert(s.len() == behind + 1);
            assert(s[behind] == (PaintView::Swatch { line, color: swatch(value) }));
        },
        _ => {
            assert(s.len() == behind);
        },
    }
}

/// Whether `x` is part of the row that is on line `k` of the list, counted from the first
/// on screen.
pub open spec fn is_part_of_line(
    rows: Seq<RowView>,
    decimals: Seq<Seq<char>>,
    cursor: int,
    focused: bool,
    first: int,
    k: int,
    x: PaintView,
) -> bool {
    is_part_of(rows[first + k], decimals[first + k], k + 1, focused && first + k == cursor, x)
}

/// Whether `x` is part of one of the first `n` rows that are on screen.
pub open spec fn is_part_of_some(
    rows: Seq<RowView>,
    decimals: Seq<Seq<char>>,
    cursor: int,
    focused: bool,
    first: int,
    n: int,
    x: PaintView,
) -> bool {
    exists|k: int|
        0 <= k < n && #[trigger] is_part_of_line(rows, decimals, cursor, focused, first, k, x)
}

proof fn the_rows_are_painted(
    rows: Seq<RowView>,
    decimals: Seq<Seq<char>>,
    cursor: int,
    focused: bool,
    first: int,
    n: int,
    x: PaintView,
)
    requires
        0 <= n,
    ensures
        rows_paint(rows, decimals, cursor, focused, first, n).contains(x) <==> is_part_of_some(
            rows,
            decimals,
            cursor,
            focused,
            first,
            n,
            x,
        ),
    decreases n,
{
    if n > 0 {
        the_rows_are_painted(rows, decimals, cursor, focused, first, n - 1, x);
        let before = rows_paint(rows, decimals, cursor, focused, first, n - 1);
        let at = first + n - 1;
        let row = row_paint(rows[at], decimals[at], n, focused && at == cursor);
        a_row_is_painted(rows[at], decimals[at], n, focused && at == cursor, x);
        let s = rows_paint(rows, decimals, cursor, focused, first, n);
        if before.contains(x) {
            assert(s[before.index_of(x)] == x);
            let k = choose|k: int|
                0 <= k < n - 1 && #[trigger] is_part_of_line(
                    rows,
                    decimals,
                    cursor,
                    focused,
                    first,
                    k,
                    x,
                );
            assert(is_part_of_line(rows, decimals, cursor, focused, first, k, x));
        }
        if row.contains(x) {
            assert(s[before.len() + row.index_of(x)] == x);
            assert(is_part_of_line(rows, decimals, cursor, focused, first, n - 1, x));
        }
        if s.contains(x) {
            let i = s.index_of(x);
            if i < before.len() {
                assert(before[i] == x);
            } else {
                assert(row[i - before.len()] == x);
            }
        }
        if is_part_of_some(rows, decimals, cursor, focused, first, n, x) {
            let k = choose|k: int|
                0 <= k < n && #[trigger] is_part_of_line(
                    rows,
                    decimals,
                    cursor,
                    focused,
                    first,
                    k,
                    x,
                );
            if k < n - 1 {
                assert(is_part_of_some(rows, decimals, cursor, focused, first, n - 1, x));
            }
        }
    }
}

/// An open inspector is painted: a box, a title, and a line for each row that is on screen,
/// with the cursor on its own where the verbs go there. As many rows are as fit, with the
/// cursor among them, and the panel remembers which is the first. A closed one is not
/// painted.
pub proof fn an_inspector_is_painted_line_by_line(
    p: InspectPanel,
    rows: Seq<RowView>,
    decimals: Seq<Seq<char>>,
    known: bool,
    max_rows: int,
    title: Seq<char>,
    focused: bool,
    x: PaintView,
)
    requires
        1 <= max_rows,
        rows.len() <= usize::MAX,
    ensures
        ({
            let count = rows.len() as int;
            let (after, painted) = drawn(p, rows, decimals, known, max_rows, title, focused);
            let n = if count < max_rows {
                count
            } else {
                max_rows
            };
            &&& !p.open || !known || count == 0 ==> painted.len() == 0 && after == p
            &&& p.open && known && count > 0 ==> {
                &&& painted.contains(x) <==> x == (PaintView::Frame { lines: n + 1 }) || x == (
                PaintView::Title { text: title }) || is_part_of_some(
                    rows,
                    decimals,
                    p.cursor as int,
                    focused,
                    after.scroll as int,
                    n,
                    x,
                )
                &&& after.scroll <= count - n
                &&& p.cursor < count ==> after.scroll <= p.cursor < after.scroll + n
                &&& after == (InspectPanel { scroll: after.scroll, ..p })
            }
        }),
{
    let count = rows.len() as int;
    if p.open && known && count > 0 {
        let n = rows_shown(count, max_rows);
        let first = first_shown(p.cursor as int, count, max_rows);
        let painted = drawn(p, rows, decimals, known, max_rows, title, focused).1;
        let head = seq![PaintView::Frame { lines: n + 1 }, PaintView::Title { text: title }];
        let body = rows_paint(rows, decimals, p.cursor as int, focused, first, n);
        the_rows_are_painted(rows, decimals, p.cursor as int, focused, first, n, x);
        assert(painted == head + body);
        assert(painted[0] == head[0] && painted[1] == head[1]);
        if body.contains(x) {
            assert(painted[2 + body.index_of(x)] == x);
        }
        if painted.contains(x) {
            let i = painted.index_of(x);
            if i >= 2 {
                assert(body[i - 2] == x);
            }
        }
    }
}

/// A row says what it has: a number in digits, a seed its low half, a choice between its
/// arrows; and a row whose content is below says nothing.
pub proof fn a_row_says_what_it_has(w: WidgetView, decimals: Seq<char>)
    ensures
        w is Group || w is Vector || w is Color ==> value_shown(w, decimals) is None,
        w is Unsupported ==> value_shown(w, decimals) == Some("-"@),
        w matches WidgetView::Int { value, range: _ } ==> value_shown(w, decimals) == Some(
            signed_decimal(value as int),
        ),
        w matches WidgetView::Seed { value } ==> value_shown(w, decimals) == Some(
            hex((value % 0x1_0000_0000) as nat, 8),
        ),
        w matches WidgetView::Choice { selected, options: _ } ==> value_shown(w, decimals) == Some(
            "< "@ + selected + " >"@,
        ),
        w matches WidgetView::Variant { selected, options: _ } ==> value_shown(w, decimals)
            == Some("< "@ + selected + " >"@),
        w is Float || w is Bool ==> value_shown(w, decimals) is Some,
{
}

/// A colour that a screen can show is shown as it is, and one that it cannot as near as it
/// can; one that is no number, or none that ends, is black.
pub proof fn a_swatch_is_of_its_colour(c: Vec3, v: F32)
    ensures
        swatch(c).x == channel(c.x),
        swatch(c).y == channel(c.y),
        swatch(c).z == channel(c.z),
        magnitude(v) < INFINITY_BITS && !below(v, F32(0)) && !below(F32(ONE_BITS), v)
            ==> channel(v) == v,
        magnitude(v) < INFINITY_BITS && below(v, F32(0)) ==> channel(v) == F32(0),
        magnitude(v) < INFINITY_BITS && below(F32(ONE_BITS), v) ==> channel(v) == F32(ONE_BITS),
        magnitude(v) >= INFINITY_BITS ==> channel(v) == F32(0),
{
}

} // verus!
