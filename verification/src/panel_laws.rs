//! What the tuning panel is for: every leaf has its line, the arrows move the cursor by
//! one, and what is pressed or dragged is done to the leaf under it.

use vstd::prelude::*;
use crate::find::{first_is, first_means, first_where};
use crate::float::{F32, below, from_whole};
use crate::input::{Input, Key, has_id, is_held, live_touch, was_pressed};
use crate::tweak::{TweakFieldView, ValueView, shown};
use crate::tweak_panel::{
    ActionView, MARGIN_BITS, Pace, PaintView, PanelView, RIGHT_BITS, Row, Shade, all_rows,
    cursor_keyed, cursor_moved, decided, decides, drag_in, drawn, first_shown, folded,
    folding_is_of_one_root, heading, next_choice, rooted, row_paint, rows_of, rows_paint,
    rows_shown, settled, tapped, this_name, title, up_and_down_cancel,
};
use crate::text::{before_dot, decimal, decimal_reads_back, number};

verus! {

/// Whether row `k` is the line of leaf `i`, under a heading of its root with nothing of
/// another root between.
pub open spec fn stands_under_its_heading(
    rows: Seq<Row>,
    fields: Seq<TweakFieldView>,
    k: int,
    i: int,
) -> bool {
    exists|h: int|
        0 <= h < k && #[trigger] rows[h] == Row::Group(fields[i].root as usize) && forall|m: int|
            h < m < k ==> (#[trigger] rows[m] is Field && fields[rows[m]->Field_0 as int].root
                == fields[i].root)
}

/// Rows as they should be for the first `n` leaves.
spec fn rows_so_far(
    collapsed: Seq<usize>,
    fields: Seq<TweakFieldView>,
    rows: Seq<Row>,
    n: int,
) -> bool {
    &&& forall|k: int|
        0 <= k < rows.len() && (#[trigger] rows[k]) is Field ==> {
            let i = rows[k]->Field_0 as int;
            &&& i < n
            &&& !collapsed.contains(fields[i].root as usize)
            &&& stands_under_its_heading(rows, fields, k, i)
        }
    &&& forall|k: int, l: int|
        0 <= k < l < rows.len() && (#[trigger] rows[k]) is Field && (#[trigger] rows[l]) is Field
            ==> rows[k]->Field_0 < rows[l]->Field_0
    &&& forall|i: int|
        0 <= i < n && !collapsed.contains((#[trigger] fields[i]).root as usize) ==> rows.contains(
            Row::Field(i as usize),
        )
    &&& forall|i: int|
        0 <= i < n ==> rows.contains(Row::Group((#[trigger] fields[i]).root as usize))
    &&& n > 0 ==> exists|h: int|
        0 <= h < rows.len() && #[trigger] rows[h] == Row::Group(fields[n - 1].root as usize)
            && forall|m: int|
            h < m < rows.len() ==> (#[trigger] rows[m] is Field
                && fields[rows[m]->Field_0 as int].root == fields[n - 1].root)
}

proof fn one_more_row(
    collapsed: Seq<usize>,
    fields: Seq<TweakFieldView>,
    rows: Seq<Row>,
    row: Row,
    n: int,
)
    requires
        rows_so_far(collapsed, fields, rows, n),
    ensures
        forall|k: int|
            0 <= k < rows.len() && (#[trigger] rows[k]) is Field ==> stands_under_its_heading(
                rows.push(row),
                fields,
                k,
                rows[k]->Field_0 as int,
            ),
        forall|r: Row| #[trigger] rows.contains(r) ==> rows.push(row).contains(r),
        rows.push(row).contains(row),
{
    let more = rows.push(row);
    assert(more[rows.len() as int] == row);
    assert forall|k: int|
        0 <= k < rows.len() && (#[trigger] rows[k]) is Field implies stands_under_its_heading(
        more,
        fields,
        k,
        rows[k]->Field_0 as int,
    ) by {
        let i = rows[k]->Field_0 as int;
        let h = choose|h: int|
            0 <= h < k && #[trigger] rows[h] == Row::Group(fields[i].root as usize)
                && forall|m: int|
                h < m < k ==> (#[trigger] rows[m] is Field && fields[rows[m]->Field_0 as int].root
                    == fields[i].root);
        assert(more[h] == rows[h]);
        assert forall|m: int| h < m < k implies (#[trigger] more[m] is Field
            && fields[more[m]->Field_0 as int].root == fields[i].root) by {
            assert(more[m] == rows[m]);
        }
    }
    assert forall|r: Row| #[trigger] rows.contains(r) implies more.contains(r) by {
        assert(more[rows.index_of(r)] == r);
    }
}

#[verifier::spinoff_prover]
#[verifier::rlimit(60)]
proof fn rows_are_as_they_should(collapsed: Seq<usize>, fields: Seq<TweakFieldView>, n: int)
    requires
        0 <= n <= fields.len() <= usize::MAX,
        forall|i: int| 0 <= i < fields.len() ==> 0 <= (#[trigger] fields[i]).root <= usize::MAX,
    ensures
        rows_so_far(collapsed, fields, rows_of(collapsed, fields, n), n),
    decreases n,
{
    if n > 0 {
        rows_are_as_they_should(collapsed, fields, n - 1);
        let before = rows_of(collapsed, fields, n - 1);
        let root = fields[n - 1].root as usize;
        let heads = n == 1 || fields[n - 2].root != fields[n - 1].root;
        let headed = if heads {
            before.push(Row::Group(root))
        } else {
            before
        };
        if heads {
            one_more_row(collapsed, fields, before, Row::Group(root), n - 1);
        }
        assert forall|k: int| 0 <= k < headed.len() && (#[trigger] headed[k]) is Field implies ({
            let i = headed[k]->Field_0 as int;
            &&& i < n - 1
            &&& !collapsed.contains(fields[i].root as usize)
            &&& stands_under_its_heading(headed, fields, k, i)
        }) by {
            assert(headed[k] == before[k]);
        }
        assert(rows_so_far_without_the_last(collapsed, fields, headed, n)) by {
            if heads {
                let h = before.len() as int;
                assert(headed[h] == Row::Group(root));
            } else {
                assert(headed == before);
            }
        }
        let after = rows_of(collapsed, fields, n);
        if collapsed.contains(root) {
            assert(after == headed);
            assert(rows_so_far(collapsed, fields, after, n));
        } else {
            assert(after == headed.push(Row::Field((n - 1) as usize)));
            the_last_leaf(collapsed, fields, headed, n);
        }
    }
}

/// Rows for the first `n` leaves, the last of which has its heading and not its line.
spec fn rows_so_far_without_the_last(
    collapsed: Seq<usize>,
    fields: Seq<TweakFieldView>,
    rows: Seq<Row>,
    n: int,
) -> bool {
    &&& forall|k: int|
        0 <= k < rows.len() && (#[trigger] rows[k]) is Field ==> {
            let i = rows[k]->Field_0 as int;
            &&& i < n - 1
            &&& !collapsed.contains(fields[i].root as usize)
            &&& stands_under_its_heading(rows, fields, k, i)
        }
    &&& forall|k: int, l: int|
        0 <= k < l < rows.len() && (#[trigger] rows[k]) is Field && (#[trigger] rows[l]) is Field
            ==> rows[k]->Field_0 < rows[l]->Field_0
    &&& forall|i: int|
        0 <= i < n - 1 && !collapsed.contains((#[trigger] fields[i]).root as usize)
            ==> rows.contains(Row::Field(i as usize))
    &&& forall|i: int|
        0 <= i < n ==> rows.contains(Row::Group((#[trigger] fields[i]).root as usize))
    &&& exists|h: int|
        0 <= h < rows.len() && #[trigger] rows[h] == Row::Group(fields[n - 1].root as usize)
            && forall|m: int|
            h < m < rows.len() ==> (#[trigger] rows[m] is Field
                && fields[rows[m]->Field_0 as int].root == fields[n - 1].root)
}

#[verifier::spinoff_prover]
#[verifier::rlimit(60)]
proof fn the_last_leaf(
    collapsed: Seq<usize>,
    fields: Seq<TweakFieldView>,
    rows: Seq<Row>,
    n: int,
)
    requires
        0 < n <= fields.len() <= usize::MAX,
        rows_so_far_without_the_last(collapsed, fields, rows, n),
        !collapsed.contains(fields[n - 1].root as usize),
    ensures
        rows_so_far(collapsed, fields, rows.push(Row::Field((n - 1) as usize)), n),
{
    let row = Row::Field((n - 1) as usize);
    let more = rows.push(row);
    let last = rows.len() as int;
    assert(more[last] == row);
    assert forall|r: Row| #[trigger] rows.contains(r) implies more.contains(r) by {
        assert(more[rows.index_of(r)] == r);
    }
    let head = choose|h: int|
        0 <= h < rows.len() && #[trigger] rows[h] == Row::Group(fields[n - 1].root as usize)
            && forall|m: int|
            h < m < rows.len() ==> (#[trigger] rows[m] is Field
                && fields[rows[m]->Field_0 as int].root == fields[n - 1].root);
    assert(more[head] == rows[head]);
    assert forall|m: int| head < m < more.len() implies (#[trigger] more[m] is Field
        && fields[more[m]->Field_0 as int].root == fields[n - 1].root) by {
        if m < last {
            assert(more[m] == rows[m]);
        }
    }
    assert forall|k: int| 0 <= k < more.len() && (#[trigger] more[k]) is Field implies ({
        let i = more[k]->Field_0 as int;
        &&& i < n
        &&& !collapsed.contains(fields[i].root as usize)
        &&& stands_under_its_heading(more, fields, k, i)
    }) by {
        let i = more[k]->Field_0 as int;
        if k < last {
            assert(more[k] == rows[k]);
            let h = choose|h: int|
                0 <= h < k && #[trigger] rows[h] == Row::Group(fields[i].root as usize)
                    && forall|m: int|
                    h < m < k ==> (#[trigger] rows[m] is Field
                        && fields[rows[m]->Field_0 as int].root == fields[i].root);
            assert(more[h] == rows[h]);
            assert forall|m: int| h < m < k implies (#[trigger] more[m] is Field
                && fields[more[m]->Field_0 as int].root == fields[i].root) by {
                assert(more[m] == rows[m]);
            }
        } else {
            assert(head < k);
        }
    }
    assert forall|k: int, l: int|
        0 <= k < l < more.len() && (#[trigger] more[k]) is Field && (
        #[trigger] more[l]) is Field implies more[k]->Field_0 < more[l]->Field_0 by {
        assert(more[k] == rows[k]);
        if l < last {
            assert(more[l] == rows[l]);
        }
    }
    assert forall|i: int|
        0 <= i < n && !collapsed.contains((#[trigger] fields[i]).root as usize) implies more.contains(
        Row::Field(i as usize),
    ) by {
        if i < n - 1 {
            assert(rows.contains(Row::Field(i as usize)));
        }
    }
    assert forall|i: int| 0 <= i < n implies more.contains(
        Row::Group((#[trigger] fields[i]).root as usize),
    ) by {
        assert(rows.contains(Row::Group(fields[i].root as usize)));
    }
}

/// Every leaf has a line under a heading of its root, unless its root is folded, and has
/// none then. The lines are in the order of the leaves, and every root has its heading,
/// folded or not.
pub proof fn every_leaf_has_its_line(collapsed: Seq<usize>, fields: Seq<TweakFieldView>, i: int)
    requires
        0 <= i < fields.len() <= usize::MAX,
        forall|j: int| 0 <= j < fields.len() ==> 0 <= (#[trigger] fields[j]).root <= usize::MAX,
    ensures
        ({
            let rows = all_rows(collapsed, fields);
            &&& rows.contains(Row::Group(fields[i].root as usize))
            &&& rows.contains(Row::Field(i as usize)) <==> !collapsed.contains(
                fields[i].root as usize,
            )
            &&& forall|k: int|
                0 <= k < rows.len() && #[trigger] rows[k] == Row::Field(i as usize)
                    ==> stands_under_its_heading(rows, fields, k, i)
            &&& forall|k: int, l: int|
                0 <= k < l < rows.len() && (#[trigger] rows[k]) is Field && (
                #[trigger] rows[l]) is Field ==> rows[k]->Field_0 < rows[l]->Field_0
        }),
{
    let rows = all_rows(collapsed, fields);
    rows_are_as_they_should(collapsed, fields, fields.len() as int);
    if rows.contains(Row::Field(i as usize)) {
        let k = rows.index_of(Row::Field(i as usize));
        assert(rows[k] is Field);
    }
}

/// The arrows move the cursor by one line, from either end to the other; both together
/// leave it. A cursor beyond the list is on its last line first.
pub proof fn the_arrows_move_by_one(cursor: int, count: int, up: bool, down: bool)
    requires
        0 <= cursor,
        0 < count,
    ensures
        ({
            let from = if cursor < count {
                cursor
            } else {
                count - 1
            };
            let to = cursor_moved(cursor, count, up, down);
            &&& up == down ==> to == from
            &&& up && !down ==> to == from - 1 || (from == 0 && to == count - 1)
            &&& down && !up ==> to == from + 1 || (from == count - 1 && to == 0)
            &&& 0 <= to < count
        }),
{
    let from = if cursor < count {
        cursor
    } else {
        count - 1
    };
    up_and_down_cancel(from, count);
    if from > 0 {
        vstd::arithmetic::div_mod::lemma_mod_add_multiples_vanish(from - 1, count);
        vstd::arithmetic::div_mod::lemma_small_mod((from - 1) as nat, count as nat);
    } else {
        vstd::arithmetic::div_mod::lemma_small_mod((count - 1) as nat, count as nat);
    }
    if from + 1 < count {
        vstd::arithmetic::div_mod::lemma_small_mod((from + 1) as nat, count as nat);
    } else {
        vstd::arithmetic::div_mod::lemma_mod_self_0(count);
    }
}

/// Of choices that are all different, the next is the one behind, and the one before it is
/// the one in front; from the end it goes on at the other end. A name that is no choice
/// counts as the first.
pub proof fn choices_go_round(choices: Seq<Seq<char>>, name: Seq<char>, k: int)
    requires
        0 <= k < choices.len(),
        choices.no_duplicates(),
        choices[k] == name || (k == 0 && !choices.contains(name)),
    ensures
        k + 1 < choices.len() ==> next_choice(choices, name, true) == choices[k + 1],
        k + 1 == choices.len() ==> next_choice(choices, name, true) == choices[0],
        k > 0 ==> next_choice(choices, name, false) == choices[k - 1],
        k == 0 ==> next_choice(choices, name, false) == choices[choices.len() - 1],
{
    let n = choices.len() as int;
    let p = this_name(name);
    first_means(choices, p);
    match first_where(choices, p) {
        Some(i) => {
            assert(p(choices[i]));
            assert(choices.contains(choices[i]));
        },
        None => {
            if choices[k] == name {
                assert(!p(choices[k]));
            }
        },
    }
    if k + 1 < n {
        vstd::arithmetic::div_mod::lemma_small_mod((k + 1) as nat, n as nat);
    } else {
        vstd::arithmetic::div_mod::lemma_mod_self_0(n);
    }
    if k > 0 {
        vstd::arithmetic::div_mod::lemma_mod_add_multiples_vanish(k - 1, n);
        vstd::arithmetic::div_mod::lemma_small_mod((k - 1) as nat, n as nat);
    } else {
        vstd::arithmetic::div_mod::lemma_small_mod((n - 1) as nat, n as nat);
    }
}

/// Whether no finger is new and none drags.
pub open spec fn is_untouched(p: PanelView, input: Input, lines: Seq<Option<usize>>) -> bool {
    p.drag is None && input.started@.len() == 0 && lines.len() == 0
}

/// Whether `r` is how far the arrows go: ten steps with Shift, a tenth with Ctrl.
pub open spec fn is_the_pace(input: Input, r: Pace) -> bool {
    &&& is_held(input.keys@, Key::Shift) ==> r == Pace::Coarse
    &&& !is_held(input.keys@, Key::Shift) && is_held(input.keys@, Key::Ctrl) ==> r == Pace::Fine
    &&& !is_held(input.keys@, Key::Shift) && !is_held(input.keys@, Key::Ctrl) ==> r == Pace::One
}

/// Whether `got` is what a step asks for of a leaf: a float goes by a step, a whole number
/// by one, a choice to its neighbour, and a switch stays.
pub open spec fn steps_the_leaf(
    f: TweakFieldView,
    up: bool,
    input: Input,
    got: Option<ActionView>,
) -> bool {
    match f.value {
        ValueView::Float(v) => got matches Some(ActionView::Nudge { path, value, range, up: u, pace })
            && path == f.path && value == v && range == f.range && u == up && is_the_pace(
            input,
            pace,
        ),
        ValueView::Int(v) => got == Some(
            ActionView::Put(
                f.path,
                ValueView::Int(
                    (if up {
                        v + 1
                    } else {
                        v - 1
                    }) as i64,
                ),
            ),
        ),
        ValueView::Bool(_) => got is None,
        ValueView::Choice(name) => if f.choices.len() == 0 {
            got is None
        } else {
            got == Some(ActionView::Put(f.path, ValueView::Choice(next_choice(f.choices, name, up))))
        },
    }
}

/// Whether `got` is what Enter asks for of a leaf: a switch the other way, a choice the
/// next one, and a number nothing.
pub open spec fn enters_the_leaf(f: TweakFieldView, got: Option<ActionView>) -> bool {
    match f.value {
        ValueView::Bool(v) => got == Some(ActionView::Put(f.path, ValueView::Bool(!v))),
        ValueView::Choice(name) => if f.choices.len() == 0 {
            got is None
        } else {
            got == Some(
                ActionView::Put(f.path, ValueView::Choice(next_choice(f.choices, name, true))),
            )
        },
        _ => got is None,
    }
}

/// Whether the folded roots are as they were but for `root`, which is folded as said.
pub open spec fn only_folds(before: Seq<usize>, after: Seq<usize>, root: usize, fold: bool) -> bool {
    &&& after.contains(root) == fold
    &&& forall|other: usize|
        other != root ==> #[trigger] after.contains(other) == before.contains(other)
}

/// What is pressed is done to the line that the cursor has come to. Of a leaf, Tab folds
/// its root; R puts it back; Enter flips or advances it; and one of the arrows steps it.
/// Of a heading, Tab and Enter fold its root or open it. Each counts only where none of
/// those before it is pressed.
pub proof fn what_is_pressed_is_done_to_the_line_under_the_cursor(
    p: PanelView,
    fields: Seq<TweakFieldView>,
    input: Input,
    lines: Seq<Option<usize>>,
    far: bool,
)
    requires
        is_untouched(p, input, lines),
        all_rows(p.collapsed, fields).len() > 0,
        p.collapsed.no_duplicates(),
        0 <= p.cursor,
        forall|j: int| 0 <= j < fields.len() ==> 0 <= (#[trigger] fields[j]).root <= usize::MAX,
    ensures
        ({
            let rows = all_rows(p.collapsed, fields);
            let count = rows.len() as int;
            let (after, got) = decided(p, fields, input, lines, far);
            let keys = input.keys@;
            let tab = was_pressed(keys, Key::Tab);
            let enter = was_pressed(keys, Key::Enter);
            let right = was_pressed(keys, Key::Right);
            let left = was_pressed(keys, Key::Left);
            let from = if p.cursor < count {
                p.cursor
            } else {
                count - 1
            };
            let up = was_pressed(keys, Key::Up);
            let down = was_pressed(keys, Key::Down);
            &&& 0 <= after.cursor < count
            &&& up == down ==> after.cursor == from
            &&& up && !down ==> after.cursor == from - 1 || (from == 0 && after.cursor == count - 1)
            &&& down && !up ==> after.cursor == from + 1 || (from == count - 1 && after.cursor == 0)
            &&& after.open == p.open && after.scroll == p.scroll && after.drag is None
            &&& match rows[after.cursor] {
                Row::Group(root) => {
                    &&& got is None
                    &&& tab || enter ==> only_folds(
                        p.collapsed,
                        after.collapsed,
                        root,
                        !p.collapsed.contains(root),
                    )
                    &&& !tab && !enter ==> after.collapsed == p.collapsed
                },
                Row::Field(i) => {
                    let f = fields[i as int];
                    if tab {
                        got is None && only_folds(
                            p.collapsed,
                            after.collapsed,
                            f.root as usize,
                            true,
                        )
                    } else {
                        &&& after.collapsed == p.collapsed
                        &&& if was_pressed(keys, Key::R) {
                            got == Some(ActionView::Reset(f.path))
                        } else if enter {
                            enters_the_leaf(f, got)
                        } else if right != left {
                            steps_the_leaf(f, right, input, got)
                        } else {
                            got is None
                        }
                    }
                },
            }
        }),
{
    let rows = all_rows(p.collapsed, fields);
    let count = rows.len() as int;
    let keys = input.keys@;
    the_arrows_move_by_one(
        p.cursor,
        count,
        was_pressed(keys, Key::Up),
        was_pressed(keys, Key::Down),
    );
    let now = settled(p, fields, input, lines);
    assert(now.collapsed == p.collapsed && now.drag is None);
    let root = match rows[now.cursor] {
        Row::Group(root) => root,
        Row::Field(i) => fields[i as int].root as usize,
    };
    let fold = match rows[now.cursor] {
        Row::Group(root) => !p.collapsed.contains(root),
        Row::Field(_) => true,
    };
    let other = if root == 0 {
        1usize
    } else {
        0usize
    };
    folding_is_of_one_root(p.collapsed, root, fold, other);
    assert forall|other: usize| other != root implies #[trigger] folded(
        p.collapsed,
        root,
        fold,
    ).contains(other) == p.collapsed.contains(other) by {
        folding_is_of_one_root(p.collapsed, root, fold, other);
    }
}

/// The number that a leaf has, where it is one, and zero otherwise.
pub open spec fn has_the_number(row: Row, fields: Seq<TweakFieldView>, r: F32) -> bool {
    match row {
        Row::Field(i) => match fields[i as int].value {
            ValueView::Float(v) => r == v,
            ValueView::Int(v) => r == from_whole(v),
            _ => r == F32(0),
        },
        Row::Group(_) => r == F32(0),
    }
}

/// A finger that comes down on a line of the panel takes it: the cursor goes there, and the
/// finger drags it from where it is and from the value it has. One beside the panel, or
/// below the list, does nothing.
pub proof fn a_finger_takes_the_line_under_it(
    p: PanelView,
    fields: Seq<TweakFieldView>,
    input: Input,
    line: Option<usize>,
    far: bool,
)
    requires
        input.started@.len() == 1,
        input.ended@.len() == 0,
        all_rows(p.collapsed, fields).len() > 0,
        0 <= p.cursor,
        0 <= p.scroll,
    ensures
        ({
            let rows = all_rows(p.collapsed, fields);
            let touch = input.started@[0];
            let after = decided(p, fields, input, seq![line], far).0;
            let over = !below(touch.pos.x, F32(MARGIN_BITS)) && !below(
                F32(RIGHT_BITS),
                touch.pos.x,
            ) && line is Some && p.scroll + line->0 < rows.len();
            &&& over ==> after.cursor == p.scroll + line->0
            &&& over && p.scroll + line->0 <= usize::MAX ==> after.touch_row == Some(
                (p.scroll + line->0) as usize,
            )
            &&& over ==> after.drag is Some && (after.drag->0).0 == touch.id && (after.drag->0).1
                == touch.pos.x && has_the_number(
                rows[p.scroll + line->0],
                fields,
                (after.drag->0).2,
            )
            &&& !over ==> after.drag == p.drag && after.touch_row == p.touch_row
        }),
{
    let rows = all_rows(p.collapsed, fields);
    let lines = seq![line];
    let moved = PanelView {
        cursor: cursor_keyed(p.cursor, rows.len() as int, input),
        ..p
    };
    let none = tapped(moved, fields, rows, input.started@, lines, 0);
    assert(none == moved);
    let one = tapped(moved, fields, rows, input.started@, lines, 1);
    assert(lines[0] == line);
    assert(settled(p, fields, input, lines) == one) by {
        match one.drag {
            Some((id, _, _)) => {
                assert(!has_id(input.ended@, id));
            },
            None => {},
        }
    }
}

/// A finger that has gone far enough drags the number of the line that it took: from the
/// value it had, by as much as the finger went, and over the leaf's own range.
pub proof fn a_drag_is_of_the_line_it_began_on(
    p: PanelView,
    fields: Seq<TweakFieldView>,
    input: Input,
    id: u64,
    from: F32,
    start: F32,
    row: usize,
    i: usize,
)
    requires
        input.started@.len() == 0,
        p.drag == Some((id, from, start)),
        p.touch_row == Some(row),
        !has_id(input.ended@, id),
        live_touch(input.live@, id) is Some,
        row < all_rows(p.collapsed, fields).len(),
        all_rows(p.collapsed, fields)[row as int] == Row::Field(i),
        fields[i as int].value is Float || fields[i as int].value is Int,
        0 <= p.cursor,
    ensures
        decided(p, fields, input, Seq::empty(), true).1 == Some(
            ActionView::Sweep {
                path: fields[i as int].path,
                start,
                from,
                to: (live_touch(input.live@, id)->0).pos.x,
                range: fields[i as int].range,
                whole: fields[i as int].value is Int,
            },
        ),
        decided(p, fields, input, Seq::empty(), true).0.drag == p.drag,
{
}

/// A finger that leaves has let go: nothing is dragged then.
pub proof fn a_finger_that_leaves_lets_go(
    p: PanelView,
    fields: Seq<TweakFieldView>,
    input: Input,
    far: bool,
)
    requires
        input.started@.len() == 0,
        p.drag is Some,
        has_id(input.ended@, (p.drag->0).0),
        all_rows(p.collapsed, fields).len() > 0,
        0 <= p.cursor,
    ensures
        decided(p, fields, input, Seq::empty(), far).0.drag is None,
        decided(p, fields, input, Seq::empty(), far).0.touch_row is None,
        !(decided(p, fields, input, Seq::empty(), far).1 is Some && decided(
            p,
            fields,
            input,
            Seq::empty(),
            far,
        ).1->0 is Sweep),
{
}

/// A tick does what it decides on, with the drag that it finds as far as the finger went.
pub proof fn a_tick_does_what_it_decides<M: Fn(F32, F32) -> bool>(
    p: PanelView,
    fields: Seq<TweakFieldView>,
    input: Input,
    lines: Seq<Option<usize>>,
    moved: M,
    after: PanelView,
    got: Option<ActionView>,
)
    requires
        decides(p, fields, input, lines, moved, after, got),
    ensures
        exists|far: bool| (after, got) == #[trigger] decided(p, fields, input, lines, far),
        got is Some && got->0 is Sweep ==> moved.ensures((got->0->to, got->0->from), true),
{
    match drag_in(p, fields, input, lines) {
        Some(d) => {
            let far = choose|far: bool|
                #![trigger moved.ensures((d.to, d.from), far)]
                moved.ensures((d.to, d.from), far) && (after, got) == decided(
                    p,
                    fields,
                    input,
                    lines,
                    far,
                );
            assert((after, got) == decided(p, fields, input, lines, far));
        },
        None => {
            assert((after, got) == decided(p, fields, input, lines, false));
        },
    }
}

/// Whether `x` is part of a row, painted on a line of its own.
pub open spec fn is_part_of(
    collapsed: Seq<usize>,
    fields: Seq<TweakFieldView>,
    decimals: Seq<Seq<char>>,
    row: Row,
    line: int,
    selected: bool,
    x: PaintView,
) -> bool {
    ||| selected && x == (PaintView::Cursor { line })
    ||| match row {
        Row::Group(root) => x == (PaintView::Label {
            line,
            indent: false,
            text: heading(collapsed, fields, root),
            shade: Shade::Text,
        }),
        Row::Field(i) => {
            let f = fields[i as int];
            let shade = if f.overridden {
                Shade::Overridden
            } else {
                Shade::Text
            };
            ||| x == (PaintView::Label { line, indent: true, text: f.label, shade })
            ||| x == (PaintView::Value { line, text: shown(f.value, decimals[i as int]), shade })
            ||| f.value is Float && x == (PaintView::Bar {
                line,
                value: f.value->Float_0,
                range: f.range,
            })
            ||| f.value is Int && x == (PaintView::Bar {
                line,
                value: from_whole(f.value->Int_0),
                range: f.range,
            })
        },
    }
}

proof fn a_row_is_painted(
    p: PanelView,
    fields: Seq<TweakFieldView>,
    decimals: Seq<Seq<char>>,
    row: Row,
    line: int,
    selected: bool,
    x: PaintView,
)
    ensures
        row_paint(p, fields, decimals, row, line, selected).contains(x) <==> is_part_of(
            p.collapsed,
            fields,
            decimals,
            row,
            line,
            selected,
            x,
        ),
{
    let s = row_paint(p, fields, decimals, row, line, selected);
    let at: int = if selected {
        1
    } else {
        0
    };
    if selected {
        assert(s[0] == (PaintView::Cursor { line }));
    }
    match row {
        Row::Group(root) => {
            assert(s.len() == at + 1);
            assert(s[at] == (PaintView::Label {
                line,
                indent: false,
                text: heading(p.collapsed, fields, root),
                shade: Shade::Text,
            }));
        },
        Row::Field(i) => {
            let f = fields[i as int];
            let shade = if f.overridden {
                Shade::Overridden
            } else {
                Shade::Text
            };
            assert(s[at] == (PaintView::Label { line, indent: true, text: f.label, shade }));
            assert(s[at + 1] == (PaintView::Value {
                line,
                text: shown(f.value, decimals[i as int]),
                shade,
            }));
            match f.value {
                ValueView::Float(v) => {
                    assert(s.len() == at + 3);
                    assert(s[at + 2] == (PaintView::Bar { line, value: v, range: f.range }));
                },
                ValueView::Int(v) => {
                    assert(s.len() == at + 3);
                    assert(s[at + 2] == (PaintView::Bar {
                        line,
                        value: from_whole(v),
                        range: f.range,
                    }));
                },
                _ => {
                    assert(s.len() == at + 2);
                },
            }
        },
    }
}

/// Whether `x` is part of the row that is on line `k` of the list, counted from the first
/// on screen.
pub open spec fn is_part_of_line(
    p: PanelView,
    fields: Seq<TweakFieldView>,
    decimals: Seq<Seq<char>>,
    rows: Seq<Row>,
    first: int,
    k: int,
    x: PaintView,
) -> bool {
    is_part_of(
        p.collapsed,
        fields,
        decimals,
        rows[first + k],
        k + 1,
        first + k == p.cursor,
        x,
    )
}

/// Whether `x` is part of one of the first `n` rows that are on screen.
pub open spec fn is_part_of_some(
    p: PanelView,
    fields: Seq<TweakFieldView>,
    decimals: Seq<Seq<char>>,
    rows: Seq<Row>,
    first: int,
    n: int,
    x: PaintView,
) -> bool {
    exists|k: int|
        0 <= k < n && #[trigger] is_part_of_line(p, fields, decimals, rows, first, k, x)
}

proof fn the_rows_are_painted(
    p: PanelView,
    fields: Seq<TweakFieldView>,
    decimals: Seq<Seq<char>>,
    rows: Seq<Row>,
    first: int,
    n: int,
    x: PaintView,
)
    requires
        0 <= n,
    ensures
        rows_paint(p, fields, decimals, rows, first, n).contains(x) <==> is_part_of_some(
            p,
            fields,
            decimals,
            rows,
            first,
            n,
            x,
        ),
    decreases n,
{
    if n > 0 {
        the_rows_are_painted(p, fields, decimals, rows, first, n - 1, x);
        let before = rows_paint(p, fields, decimals, rows, first, n - 1);
        let row = row_paint(
            p,
            fields,
            decimals,
            rows[first + n - 1],
            n,
            first + n - 1 == p.cursor,
        );
        a_row_is_painted(
            p,
            fields,
            decimals,
            rows[first + n - 1],
            n,
            first + n - 1 == p.cursor,
            x,
        );
        let s = rows_paint(p, fields, decimals, rows, first, n);
        if before.contains(x) {
            assert(s[before.index_of(x)] == x);
            let k = choose|k: int|
                0 <= k < n - 1 && #[trigger] is_part_of_line(p, fields, decimals, rows, first, k, x);
            assert(is_part_of_line(p, fields, decimals, rows, first, k, x));
        }
        if row.contains(x) {
            assert(s[before.len() + row.index_of(x)] == x);
            let k = n - 1;
            assert(is_part_of_line(p, fields, decimals, rows, first, k, x));
        }
        if s.contains(x) {
            let i = s.index_of(x);
            if i < before.len() {
                assert(before[i] == x);
            } else {
                assert(row[i - before.len()] == x);
            }
        }
        if is_part_of_some(p, fields, decimals, rows, first, n, x) {
            let k = choose|k: int|
                0 <= k < n && #[trigger] is_part_of_line(p, fields, decimals, rows, first, k, x);
            if k < n - 1 {
                assert(is_part_of_some(p, fields, decimals, rows, first, n - 1, x));
            }
        }
    }
}

/// An open panel is painted: a box, a title, and a line for each row that is on screen,
/// with the cursor on its own. As many rows are as fit, with the cursor among them, and the
/// panel remembers which is the first. A closed one is not painted.
pub proof fn a_panel_is_painted_line_by_line(
    p: PanelView,
    fields: Seq<TweakFieldView>,
    decimals: Seq<Seq<char>>,
    known: bool,
    max_rows: int,
    overrides: int,
    x: PaintView,
)
    requires
        1 <= max_rows,
        0 <= p.cursor,
    ensures
        ({
            let rows = all_rows(p.collapsed, fields);
            let count = rows.len() as int;
            let (after, painted) = drawn(p, fields, decimals, known, max_rows, overrides);
            let n = if count < max_rows {
                count
            } else {
                max_rows
            };
            &&& !p.open || !known || count == 0 ==> painted.len() == 0 && after == p
            &&& p.open && known && count > 0 ==> {
                &&& painted.contains(x) <==> x == (PaintView::Frame { lines: n + 1 }) || x == (
                PaintView::Label {
                    line: 0,
                    indent: false,
                    text: title(overrides),
                    shade: Shade::Dim,
                }) || is_part_of_some(p, fields, decimals, rows, after.scroll, n, x)
                &&& 0 <= after.scroll <= count - n
                &&& p.cursor < count ==> after.scroll <= p.cursor < after.scroll + n
                &&& after == (PanelView { scroll: after.scroll, ..p })
            }
        }),
{
    let rows = all_rows(p.collapsed, fields);
    let count = rows.len() as int;
    if p.open && known && count > 0 {
        let n = rows_shown(count, max_rows);
        let first = first_shown(p.cursor, count, max_rows);
        let painted = drawn(p, fields, decimals, known, max_rows, overrides).1;
        let head = seq![
            PaintView::Frame { lines: n + 1 },
            PaintView::Label {
                line: 0,
                indent: false,
                text: title(overrides),
                shade: Shade::Dim,
            },
        ];
        let body = rows_paint(p, fields, decimals, rows, first, n);
        the_rows_are_painted(p, fields, decimals, rows, first, n, x);
        assert(painted == head + body);
        assert(painted[0] == head[0] && painted[1] == head[1]);
        if body.contains(x) {
            assert(painted[2 + body.index_of(x)] == x);
        }
        if painted.contains(x) {
            let i = painted.index_of(x);
            if i >= 2 {
                assert(body[i - 2] == x);
            }
        }
    }
}

/// The title counts what is changed, where anything is.
pub proof fn the_title_counts_what_is_changed(overrides: nat)
    ensures
        overrides == 0 ==> title(overrides as int) == "TWEAKS"@,
        overrides > 0 ==> exists|digits: Seq<char>|
            number(digits) == Some(overrides) && title(overrides as int) == #[trigger] ("TWEAKS  ("@
                + digits + " changed)"@),
{
    decimal_reads_back(overrides);
    let digits = decimal(overrides);
    assert(number(digits) == Some(overrides));
    if overrides > 0 {
        assert(title(overrides as int) == "TWEAKS  ("@ + digits + " changed)"@);
    }
}

/// A root's heading says whether it is folded, and goes by the head of its first leaf's
/// path.
pub proof fn a_heading_says_whether_it_is_folded(
    collapsed: Seq<usize>,
    fields: Seq<TweakFieldView>,
    root: usize,
    i: int,
)
    requires
        0 <= i < fields.len(),
        fields[i].root == root,
        forall|j: int| 0 <= j < i ==> (#[trigger] fields[j]).root != root,
    ensures
        collapsed.contains(root) ==> heading(collapsed, fields, root) == "> "@ + before_dot(
            fields[i].path,
        ),
        !collapsed.contains(root) ==> heading(collapsed, fields, root) == "v "@ + before_dot(
            fields[i].path,
        ),
{
    let p = rooted(root);
    assert forall|j: int| 0 <= j < i implies !p(#[trigger] fields[j]) by {}
    first_is(fields, p, i);
}

} // verus!
