//! What holds of tunables as a whole: a path is listed, read, written and put back
//! as one and the same leaf.

use vstd::prelude::*;
use crate::find::{first_is, first_means, first_where};
use crate::float::{
    as_whole, clamped_is_between, magnitude, rank, small_numbers_are_settled,
    through_double_is_settled, wholes_are_settled, wholes_keep_order, INFINITY_BITS,
};
use crate::reflect::{in_order, named, FieldRange, NodeView, Scalar};
use crate::text::{
    after_dot, before_dot, decimal_reads_back, dot_at, dot_found, pieces,
};
use crate::tweak::{
    applied, child_at, child_in_bounds, child_name, children, cleared, distinct_names, fields_under, got, held,
    inherited, leaf_written, leaves, leaves_of, located, located_in_bounds, range_for,
    reached, recorded, resolved, root_called, root_fields, same_children, segments_of, set_in,
    still_located, tunables, under, value_of, with_child, written, Reach, TweakFieldView, ValueView,
    WorldView, MAX_DEPTH,
};

verus! {

/// The value at the end of a path.
pub open spec fn read(
    node: NodeView,
    segments: Seq<Seq<char>>,
    declared: Option<FieldRange>,
) -> Option<ValueView> {
    match resolved(node, segments, declared) {
        Some((leaf, _)) => value_of(leaf),
        None => None,
    }
}

/// Which field a path takes at each step.
pub open spec fn place(node: NodeView, segments: Seq<Seq<char>>) -> Option<Seq<int>>
    decreases segments.len(),
{
    if segments.len() == 0 {
        Some(Seq::empty())
    } else {
        match child_at(node, segments[0]) {
            Some(i) => match place(children(node)[i].value, segments.drop_first()) {
                Some(rest) => Some(seq![i] + rest),
                None => None,
            },
            None => None,
        }
    }
}

proof fn written_reads_back(
    node: NodeView,
    segments: Seq<Seq<char>>,
    declared: Option<FieldRange>,
    value: ValueView,
)
    requires
        written(node, segments, declared, value) is Ok,
    ensures
        ({
            let (after, landed) = written(node, segments, declared, value)->Ok_0;
            read(after, segments, declared) == Some(landed)
        }),
    decreases segments.len(),
{
    if segments.len() > 0 {
        child_in_bounds(node, segments[0]);
        let i = child_at(node, segments[0])->0;
        let field = children(node)[i];
        let rest = segments.drop_first();
        let range = inherited(field.range, declared);
        written_reads_back(field.value, rest, range, value);
        same_children(node, i, written(field.value, rest, range, value)->Ok_0.0, segments[0]);
    }
}

proof fn written_moves_one(
    node: NodeView,
    segments: Seq<Seq<char>>,
    declared: Option<FieldRange>,
    value: ValueView,
    others: Seq<Seq<char>>,
    above: Option<FieldRange>,
)
    requires
        written(node, segments, declared, value) is Ok,
        place(node, segments) != place(node, others),
    ensures
        read(written(node, segments, declared, value)->Ok_0.0, others, above) == read(
            node,
            others,
            above,
        ),
    decreases segments.len(),
{
    let after = written(node, segments, declared, value)->Ok_0.0;
    if segments.len() == 0 {
        if others.len() > 0 {
            assert(child_at(after, others[0]) is None);
            assert(child_at(node, others[0]) is None);
        }
    } else {
        child_in_bounds(node, segments[0]);
        let i = child_at(node, segments[0])->0;
        let field = children(node)[i];
        let rest = segments.drop_first();
        let range = inherited(field.range, declared);
        let inner = written(field.value, rest, range, value)->Ok_0.0;
        if others.len() > 0 {
            same_children(node, i, inner, others[0]);
            child_in_bounds(node, others[0]);
            if let Some(j) = child_at(node, others[0]) {
                let there = children(node)[j];
                assert(children(after)[j].range == there.range);
                if j == i {
                    written_moves_one(
                        field.value,
                        rest,
                        range,
                        value,
                        others.drop_first(),
                        inherited(there.range, above),
                    );
                }
            }
        }
    }
}

proof fn written_twice(
    node: NodeView,
    segments: Seq<Seq<char>>,
    declared: Option<FieldRange>,
    first: ValueView,
    second: ValueView,
)
    requires
        written(node, segments, declared, first) is Ok,
    ensures
        written(written(node, segments, declared, first)->Ok_0.0, segments, declared, second)
            == written(node, segments, declared, second),
    decreases segments.len(),
{
    if segments.len() > 0 {
        child_in_bounds(node, segments[0]);
        let i = child_at(node, segments[0])->0;
        let field = children(node)[i];
        let rest = segments.drop_first();
        let range = inherited(field.range, declared);
        written_twice(field.value, rest, range, first, second);
        let inner = written(field.value, rest, range, first)->Ok_0.0;
        same_children(node, i, inner, segments[0]);
        if let Ok((last, _)) = written(field.value, rest, range, second) {
            let once = children(with_child(node, i, last));
            let twice = children(with_child(with_child(node, i, inner), i, last));
            assert(once =~= twice);
        }
    }
}

/// A leaf reads back as what landed in it.
pub proof fn a_write_reads_back(
    roots: Seq<(Seq<char>, Reach)>,
    targets: Seq<(Reach, NodeView)>,
    path: Seq<char>,
    value: ValueView,
)
    requires
        set_in(roots, targets, path, value) is Ok,
    ensures
        ({
            let (after, landed) = set_in(roots, targets, path, value)->Ok_0;
            got(roots, after, path) == Some(landed)
        }),
{
    let t = located(roots, targets, path)->Ok_0;
    located_in_bounds(roots, targets, path);
    written_reads_back(targets[t].1, segments_of(path), None, value);
    let node = written(targets[t].1, segments_of(path), None, value)->Ok_0.0;
    still_located(roots, targets, t, node, path);
}

/// A write moves one leaf: every path that leads to another place reads as it did.
pub proof fn a_write_moves_nothing_else(
    roots: Seq<(Seq<char>, Reach)>,
    targets: Seq<(Reach, NodeView)>,
    path: Seq<char>,
    value: ValueView,
    other: Seq<char>,
)
    requires
        set_in(roots, targets, path, value) is Ok,
        located(roots, targets, other) != located(roots, targets, path) || ({
            let node = targets[located(roots, targets, path)->Ok_0].1;
            place(node, segments_of(other)) != place(node, segments_of(path))
        }),
    ensures
        got(roots, set_in(roots, targets, path, value)->Ok_0.0, other) == got(
            roots,
            targets,
            other,
        ),
{
    let t = located(roots, targets, path)->Ok_0;
    located_in_bounds(roots, targets, path);
    let node = written(targets[t].1, segments_of(path), None, value)->Ok_0.0;
    still_located(roots, targets, t, node, other);
    located_in_bounds(roots, targets, other);
    if let Ok(u) = located(roots, targets, other) {
        if u == t {
            written_moves_one(
                targets[t].1,
                segments_of(path),
                None,
                value,
                segments_of(other),
                None,
            );
        }
    }
}

/// Of two writes to a leaf the second decides: the world, and what comes of it,
/// are as though the first had never been.
pub proof fn the_last_write_wins(
    roots: Seq<(Seq<char>, Reach)>,
    targets: Seq<(Reach, NodeView)>,
    path: Seq<char>,
    first: ValueView,
    second: ValueView,
)
    requires
        set_in(roots, targets, path, first) is Ok,
    ensures
        set_in(roots, set_in(roots, targets, path, first)->Ok_0.0, path, second) == set_in(
            roots,
            targets,
            path,
            second,
        ),
{
    let t = located(roots, targets, path)->Ok_0;
    located_in_bounds(roots, targets, path);
    let node = written(targets[t].1, segments_of(path), None, first)->Ok_0.0;
    still_located(roots, targets, t, node, path);
    written_twice(targets[t].1, segments_of(path), None, first, second);
    if let Ok((last, _)) = written(targets[t].1, segments_of(path), None, second) {
        let once = targets.update(t, (targets[t].0, last));
        let twice = targets.update(t, (targets[t].0, node)).update(t, (targets[t].0, last));
        assert(once =~= twice);
    }
}

/// Clearing an edit puts the world back: where a leaf held its authored value, and
/// that value is one that its range lets through, then after any edit that landed
/// `clear` restores every value, answers with the authored one, and forgets the
/// override.
pub proof fn clearing_restores(w: WorldView, path: Seq<char>, value: ValueView)
    requires
        w.tweakables is Some,
        tunables(w).authored.contains_key(path),
        set_in(tunables(w).roots, w.targets, path, tunables(w).authored[path]) == Ok::<
            (Seq<(Reach, NodeView)>, ValueView),
            crate::tweak::TweakError,
        >((w.targets, tunables(w).authored[path])),
        recorded(w, path, value).1 is Ok,
    ensures
        ({
            let (after, result) = cleared(recorded(w, path, value).0, path);
            &&& after.targets == w.targets
            &&& after.tweakables == w.tweakables
            &&& after.overrides is Some
            &&& !after.overrides->0.contains_key(path)
            &&& result == Ok::<Option<ValueView>, crate::tweak::TweakError>(
                Some(tunables(w).authored[path]),
            )
        }),
{
    let t = tunables(w);
    the_last_write_wins(t.roots, w.targets, path, value, t.authored[path]);
}

/// What lands in a single-precision leaf lies in its range, and in a leaf of the
/// widest signed integer between the whole parts of the bounds.
pub proof fn what_lands_is_in_range(node: NodeView, value: ValueView, range: FieldRange)
    requires
        in_order(range),
        leaf_written(node, value, range) is Ok,
    ensures
        match leaf_written(node, value, range)->Ok_0.1 {
            ValueView::Float(v) => rank(range.min) <= rank(v) <= rank(range.max),
            ValueView::Int(v) => node is Leaf && node->Leaf_0 is I64 ==> as_whole(range.min) <= v
                <= as_whole(range.max),
            _ => true,
        },
{
    wholes_keep_order(range.min, range.max);
    if let ValueView::Float(v) = value {
        if magnitude(v) < INFINITY_BITS {
            clamped_is_between(v, range.min, range.max);
        }
    }
    if let ValueView::Int(v) = value {
        through_double_is_settled(v);
        wholes_are_settled(range.min);
        wholes_are_settled(range.max);
    }
}

/// Whether a leaf's type holds every number that an edit can carry: a `usize` of
/// fewer bits does not.
pub open spec fn wide_enough(node: NodeView) -> bool {
    node is Leaf && node->Leaf_0 is Usize ==> usize::MAX >= i64::MAX
}

/// What landed lands again: writing the value that an edit left behind does to the
/// leaf what the edit did. So a recorded override, applied to a fresh world, makes
/// of it what the edit made.
#[verifier::spinoff_prover]
#[verifier::rlimit(40)]
pub proof fn what_landed_lands_again(node: NodeView, value: ValueView, range: FieldRange)
    requires
        in_order(range),
        wide_enough(node),
        leaf_written(node, value, range) is Ok,
    ensures
        leaf_written(node, leaf_written(node, value, range)->Ok_0.1, range) == leaf_written(
            node,
            value,
            range,
        ),
{
    let landed = leaf_written(node, value, range)->Ok_0.1;
    match value {
        ValueView::Float(v) => {
            if magnitude(v) < INFINITY_BITS {
                clamped_is_between(v, range.min, range.max);
            }
        },
        ValueView::Int(v) => {
            wholes_keep_order(range.min, range.max);
            through_double_is_settled(v);
            wholes_are_settled(range.min);
            wholes_are_settled(range.max);
            let h = held(v, range);
            assert(held(h as i64, range) == h);
            match node->Leaf_0 {
                Scalar::U8(_) => {
                    small_numbers_are_settled(0);
                    small_numbers_are_settled(255);
                },
                Scalar::U32(_) => {
                    small_numbers_are_settled(0);
                    small_numbers_are_settled(0xffff_ffff);
                },
                Scalar::I32(_) => {
                    small_numbers_are_settled(i32::MIN as i64);
                    small_numbers_are_settled(i32::MAX as i64);
                },
                _ => {
                    small_numbers_are_settled(0);
                },
            }
        },
        _ => {},
    }
}

/// Whether `value` is compared with no range, or with one in order.
pub open spec fn range_serves(value: ValueView, range: FieldRange) -> bool {
    value is Bool || value is Choice || in_order(range)
}

proof fn written_again(
    node: NodeView,
    segments: Seq<Seq<char>>,
    declared: Option<FieldRange>,
    value: ValueView,
)
    requires
        written(node, segments, declared, value) is Ok,
        resolved(node, segments, declared) matches Some((leaf, range)) ==> wide_enough(leaf)
            && range_serves(value, range_for(leaf, range)),
    ensures
        written(node, segments, declared, written(node, segments, declared, value)->Ok_0.1)
            == written(node, segments, declared, value),
    decreases segments.len(),
{
    if segments.len() == 0 {
        if !(value is Bool) && !(value is Choice) {
            what_landed_lands_again(node, value, range_for(node, declared));
        }
    } else {
        child_in_bounds(node, segments[0]);
        let i = child_at(node, segments[0])->0;
        let field = children(node)[i];
        written_again(
            field.value,
            segments.drop_first(),
            inherited(field.range, declared),
            value,
        );
    }
}

/// An override replays the edit that it records: applied to a world with the same
/// values, it lands, and makes of them what the edit made.
pub proof fn an_override_replays(w: WorldView, path: Seq<char>, value: ValueView)
    requires
        recorded(w, path, value).1 is Ok,
        ({
            let t = tunables(w);
            let node = w.targets[located(t.roots, w.targets, path)->Ok_0].1;
            resolved(node, segments_of(path), None) matches Some((leaf, range)) ==> wide_enough(
                leaf,
            ) && range_serves(value, range_for(leaf, range))
        }),
    ensures
        ({
            let (after, result) = recorded(w, path, value);
            let entries = seq![(path, result->Ok_0)];
            applied(tunables(w).roots, w.targets, entries, 1) == (after.targets, 1int)
        }),
{
    let t = tunables(w);
    let at = located(t.roots, w.targets, path)->Ok_0;
    written_again(w.targets[at].1, segments_of(path), None, value);
    let landed = recorded(w, path, value).1->Ok_0;
    let entries = seq![(path, landed)];
    assert(applied(t.roots, w.targets, entries, 0) == (w.targets, 0int));
    assert(entries[0] == (path, landed));
}

/// Whether the fields go by names that a path can hold, each its own, as far down
/// as the walk goes.
pub open spec fn plain(node: NodeView, depth: int) -> bool
    decreases 10 - depth,
{
    depth > MAX_DEPTH || {
        &&& node matches NodeView::Struct(f) ==> {
            &&& forall|i: int| 0 <= i < f.len() ==> plain_name((#[trigger] f[i]).name)
            &&& forall|i: int, j: int|
                0 <= i < j < f.len() ==> (#[trigger] f[i]).name != (#[trigger] f[j]).name
        }
        &&& forall|i: int|
            0 <= i < children(node).len() ==> plain((#[trigger] children(node)[i]).value, depth + 1)
    }
}

/// A name that a path can hold.
pub open spec fn plain_name(name: Seq<char>) -> bool {
    name.len() > 0 && !name.contains('.')
}

/// A path's first segment is the name that it begins with.
proof fn first_piece(name: Seq<char>, tail: Seq<char>)
    requires
        plain_name(name),
        tail.len() == 0 || tail[0] == '.',
    ensures
        pieces(seq!['.'] + name + tail) == seq![name] + pieces(tail),
{
    let s = seq!['.'] + name + tail;
    let t = name + tail;
    assert(s[0] == '.');
    assert(s.skip(1) =~= t);
    assert(dot_at(s) == 0);
    assert(pieces(s) == pieces(t));
    assert forall|i: int| 0 <= i < name.len() implies t[i] != '.' by {
        assert(name.contains(name[i]));
    }
    dot_found(t, name.len() as int);
    assert(before_dot(t) =~= name);
    if tail.len() == 0 {
        assert(pieces(t) =~= seq![name]);
        assert(pieces(tail) =~= Seq::empty());
    } else {
        assert(t.skip(name.len() as int + 1) =~= tail.skip(1));
        assert(dot_at(tail) == 0);
    }
}

/// A segment that a field goes by leads to that field.
proof fn child_by_name(node: NodeView, depth: int, i: int)
    requires
        plain(node, depth),
        depth <= MAX_DEPTH,
        0 <= i < children(node).len(),
    ensures
        child_at(node, child_name(node, i)) == Some(i),
        plain_name(child_name(node, i)),
{
    match node {
        NodeView::Struct(f) => {
            let p = named(f[i].name);
            assert forall|j: int| 0 <= j < i implies !p(#[trigger] f[j]) by {
                assert(f[j].name != f[i].name);
            }
            first_is(f, p, i);
        },
        _ => {
            decimal_reads_back(i as nat);
        },
    }
}

/// What can be read where a path ends is what the walk lists there: a number, a
/// switch, or an enum none of whose variants carries data.
pub proof fn what_is_read_is_listed(
    node: NodeView,
    path: Seq<char>,
    root: int,
    depth: int,
    declared: Option<FieldRange>,
)
    requires
        depth <= MAX_DEPTH,
        node !is Struct,
        node !is TupleStruct,
    ensures
        ({
            let listed = leaves(node, path, root, depth, declared);
            match value_of(node) {
                Some(value) => listed.len() == 1 && listed[0].path == path && listed[0].value
                    == value,
                None => listed.len() == 0,
            }
        }),
{
}

/// What a listed path is: the path that the walk started with, and a tail that
/// leads from the node to the leaf.
spec fn leads(
    node: NodeView,
    path: Seq<char>,
    declared: Option<FieldRange>,
    listed: TweakFieldView,
) -> bool {
    let tail = listed.path.skip(path.len() as int);
    &&& path.len() <= listed.path.len()
    &&& listed.path == path + tail
    &&& tail.len() == 0 || tail[0] == '.'
    &&& resolved(node, pieces(tail), declared) matches Some((leaf, range)) && value_of(leaf)
        == Some(listed.value) && (leaf is Leaf ==> listed.range == range_for(leaf, range))
}

proof fn leaves_lead(
    node: NodeView,
    path: Seq<char>,
    root: int,
    depth: int,
    declared: Option<FieldRange>,
    k: int,
)
    requires
        plain(node, depth),
        0 <= k < leaves(node, path, root, depth, declared).len(),
    ensures
        leads(node, path, declared, leaves(node, path, root, depth, declared)[k]),
    decreases 10 - depth, children(node).len() + 1,
{
    let all = leaves(node, path, root, depth, declared);
    match node {
        NodeView::Struct(f) => {
            leaves_of_lead(node, f.len() as int, path, root, depth, declared, k);
        },
        NodeView::TupleStruct(f) => {
            leaves_of_lead(node, f.len() as int, path, root, depth, declared, k);
        },
        _ => {
            let tail = all[k].path.skip(path.len() as int);
            assert(tail.len() == 0);
            assert(all[k].path =~= path + tail);
            assert(pieces(tail) =~= Seq::empty());
        },
    }
}

proof fn leaves_of_lead(
    node: NodeView,
    n: int,
    path: Seq<char>,
    root: int,
    depth: int,
    declared: Option<FieldRange>,
    k: int,
)
    requires
        plain(node, depth),
        depth <= MAX_DEPTH,
        0 <= n <= children(node).len(),
        0 <= k < leaves_of(node, n, path, root, depth, declared).len(),
    ensures
        leads(node, path, declared, leaves_of(node, n, path, root, depth, declared)[k]),
    decreases 10 - depth, n,
{
    let before = leaves_of(node, n - 1, path, root, depth, declared);
    if k < before.len() {
        leaves_of_lead(node, n - 1, path, root, depth, declared, k);
    } else {
        let field = children(node)[n - 1];
        let name = child_name(node, n - 1);
        let longer = under(path, name);
        let range = inherited(field.range, declared);
        child_by_name(node, depth, n - 1);
        leaves_lead(field.value, longer, root, depth + 1, range, k - before.len());
        let listed = leaves_of(node, n, path, root, depth, declared)[k];
        assert(listed == leaves(field.value, longer, root, depth + 1, range)[k - before.len()]);
        let rest = listed.path.skip(longer.len() as int);
        let tail = listed.path.skip(path.len() as int);
        assert(tail =~= seq!['.'] + name + rest);
        assert(listed.path =~= path + tail);
        first_piece(name, rest);
        assert(pieces(tail)[0] == name);
        assert(pieces(tail).drop_first() =~= pieces(rest));
    }
}

/// Whether the roots go by names that a path can hold.
pub open spec fn plain_roots(roots: Seq<(Seq<char>, Reach)>) -> bool {
    distinct_names(roots) && forall|i: int|
        0 <= i < roots.len() ==> plain_name((#[trigger] roots[i]).0)
}

/// Whether the fields of every value go by names that a path can hold.
pub open spec fn plain_targets(targets: Seq<(Reach, NodeView)>) -> bool {
    forall|i: int| 0 <= i < targets.len() ==> plain((#[trigger] targets[i]).1, 0)
}

proof fn root_field_reads(
    roots: Seq<(Seq<char>, Reach)>,
    targets: Seq<(Reach, NodeView)>,
    i: int,
    k: int,
)
    requires
        plain_roots(roots),
        plain_targets(targets),
        0 <= i < roots.len(),
        0 <= k < root_fields(roots, targets, i).len(),
    ensures
        got(roots, targets, root_fields(roots, targets, i)[k].path) == Some(
            root_fields(roots, targets, i)[k].value,
        ),
{
    let (name, reach) = roots[i];
    first_means(targets, reached(reach));
    let t = first_where(targets, reached(reach))->0;
    let all = leaves(targets[t].1, name, i, 0, None);
    leaves_lead(targets[t].1, name, i, 0, None, k);
    let listed = root_fields(roots, targets, i)[k];
    assert(listed == all[k]);
    let path = listed.path;
    let tail = path.skip(name.len() as int);
    assert forall|j: int| 0 <= j < name.len() implies path[j] != '.' by {
        assert(path[j] == name[j]);
        assert(name.contains(name[j]));
    }
    if tail.len() > 0 {
        assert(path[name.len() as int] == tail[0]);
    }
    dot_found(path, name.len() as int);
    assert(before_dot(path) =~= name);
    assert(segments_of(path) == pieces(tail)) by {
        if tail.len() > 0 {
            assert(after_dot(path) =~= tail.skip(1));
            assert(dot_at(tail) == 0);
        } else {
            assert(after_dot(path) =~= tail);
        }
    }
    let p = root_called(name);
    assert forall|j: int| 0 <= j < i implies !p(#[trigger] roots[j]) by {
        assert(roots[j].0 != roots[i].0);
    }
    first_is(roots, p, i);
}

/// Every path that is listed leads to the leaf that it is listed for: reading it
/// gives the listed value.
pub proof fn listed_paths_lead_back(
    roots: Seq<(Seq<char>, Reach)>,
    targets: Seq<(Reach, NodeView)>,
    n: int,
    k: int,
)
    requires
        plain_roots(roots),
        plain_targets(targets),
        0 <= n <= roots.len(),
        0 <= k < fields_under(roots, targets, n).len(),
    ensures
        ({
            let listed = fields_under(roots, targets, n)[k];
            got(roots, targets, listed.path) == Some(listed.value)
        }),
    decreases n,
{
    let before = fields_under(roots, targets, n - 1);
    if k < before.len() {
        listed_paths_lead_back(roots, targets, n - 1, k);
    } else {
        root_field_reads(roots, targets, n - 1, k - before.len());
    }
}

} // verus!
