//! What tuning a world comes to, said of the world itself: which leaf a path leads to,
//! what a value becomes when it is written there, what is listed of a value, and what an
//! edit and its undoing leave of everything else.

use vstd::prelude::*;
use crate::find::{first_is, first_means, first_where};
use crate::float::{
    F32, INFINITY_BITS, as_whole, magnitude, rank, small_numbers_are_settled,
    small_wholes_come_back, wholes_are_settled, wholes_keep_order,
};
use crate::reflect::{
    FieldRange, NodeView, Scalar, declared_for, in_order, named, variant_named, with_field,
};
use crate::text::{after_dot, before_dot, decimal, decimal_reads_back, dot_at, dot_bounds, has_dot};
use crate::tweak::{
    Reach, TweakError, TweakFieldView, ValueView, WorldView, called, child_at, child_in_bounds,
    child_name, children, choice_range, cleared, cleared_all, fields_under, inherited, label_of,
    leaf_written, leaves, leaves_of, listed_fields, located, located_in_bounds, range_for, reached,
    recorded, registered, resolved, root_called, root_fields, same_children, segments_of, set_in,
    tunables, under, value_of, with_authored, written,
};

verus! {

// ---------------------------------------------------------------------------
// Where a path leads
// ---------------------------------------------------------------------------

/// A path is its root's name, a dot and the rest; the name has no dot in it. A path
/// without a dot is the name alone.
pub proof fn a_path_is_a_name_and_the_rest(path: Seq<char>)
    ensures
        !before_dot(path).contains('.'),
        path.contains('.') ==> path == before_dot(path) + seq!['.'] + after_dot(path),
        !path.contains('.') ==> path == before_dot(path) && after_dot(path).len() == 0,
{
    dot_bounds(path);
    let n = dot_at(path);
    if before_dot(path).contains('.') {
        let i = before_dot(path).index_of('.');
        assert(path[i] == '.');
    }
    if path.contains('.') {
        let i = path.index_of('.');
        assert(path =~= before_dot(path) + seq!['.'] + after_dot(path));
    } else {
        if n < path.len() {
            assert(path.contains(path[n]));
        }
        assert(path =~= before_dot(path));
    }
}

/// A path leads to the first value that its root reaches. It leads nowhere where there is
/// no root of its name, and its root is absent where nothing is reached so.
pub proof fn a_path_leads_to_what_its_root_reaches(
    roots: Seq<(Seq<char>, Reach)>,
    targets: Seq<(Reach, NodeView)>,
    path: Seq<char>,
)
    requires
        path.len() > 0,
    ensures
        match located(roots, targets, path) {
            Ok(t) => 0 <= t < targets.len() && exists|i: int|
                {
                    &&& 0 <= i < roots.len()
                    &&& (#[trigger] roots[i]).0 == before_dot(path)
                    &&& forall|j: int| 0 <= j < i ==> (#[trigger] roots[j]).0 != before_dot(path)
                    &&& targets[t].0 == roots[i].1
                    &&& forall|u: int| 0 <= u < t ==> (#[trigger] targets[u]).0 != roots[i].1
                },
            Err(TweakError::RootAbsent) => exists|i: int|
                {
                    &&& 0 <= i < roots.len()
                    &&& (#[trigger] roots[i]).0 == before_dot(path)
                    &&& forall|j: int| 0 <= j < i ==> (#[trigger] roots[j]).0 != before_dot(path)
                    &&& forall|u: int|
                        0 <= u < targets.len() ==> (#[trigger] targets[u]).0 != roots[i].1
                },
            Err(TweakError::NoSuchPath) => forall|i: int|
                0 <= i < roots.len() ==> (#[trigger] roots[i]).0 != before_dot(path),
            Err(TweakError::WrongKind) => false,
        },
{
    let name = before_dot(path);
    let p = root_called(name);
    first_means(roots, p);
    match first_where(roots, p) {
        Some(i) => {
            assert forall|j: int| 0 <= j < i implies (#[trigger] roots[j]).0 != name by {
                assert(!p(roots[j]));
            }
            let q = reached(roots[i].1);
            first_means(targets, q);
            let end = match first_where(targets, q) {
                Some(t) => t,
                None => targets.len() as int,
            };
            assert forall|u: int| 0 <= u < end implies (#[trigger] targets[u]).0 != roots[i].1 by {
                assert(!q(targets[u]));
            }
            assert(roots[i].0 == name);
        },
        None => {
            assert forall|i: int| 0 <= i < roots.len() implies (#[trigger] roots[i]).0 != name by {
                assert(!p(roots[i]));
            }
        },
    }
}

/// A segment of a path leads to the first field of its name in a struct, and to the field
/// of its number in a tuple struct; it leads nowhere in anything else.
pub proof fn a_segment_leads_to_the_field_it_names(node: NodeView, segment: Seq<char>, n: nat)
    ensures
        match node {
            NodeView::Struct(f) => match child_at(node, segment) {
                Some(i) => 0 <= i < f.len() && f[i].name == segment && forall|j: int|
                    0 <= j < i ==> (#[trigger] f[j]).name != segment,
                None => forall|j: int| 0 <= j < f.len() ==> (#[trigger] f[j]).name != segment,
            },
            NodeView::TupleStruct(f) => child_at(node, decimal(n)) == (if n < f.len() {
                Some(n as int)
            } else {
                None
            }),
            _ => child_at(node, segment) is None,
        },
{
    match node {
        NodeView::Struct(f) => {
            let p = named(segment);
            first_means(f, p);
            let end = match child_at(node, segment) {
                Some(i) => i,
                None => f.len() as int,
            };
            assert forall|j: int| 0 <= j < end implies (#[trigger] f[j]).name != segment by {
                assert(!p(f[j]));
            }
        },
        NodeView::TupleStruct(f) => {
            decimal_reads_back(n);
        },
        _ => {},
    }
}

/// A path is followed segment by segment: each leads into the field that it names, and the
/// range that counts is the one declared nearest to the leaf.
pub proof fn a_path_is_followed_field_by_field(
    node: NodeView,
    segments: Seq<Seq<char>>,
    declared: Option<FieldRange>,
)
    ensures
        segments.len() == 0 ==> resolved(node, segments, declared) == Some((node, declared)),
        segments.len() > 0 && child_at(node, segments[0]) is None ==> resolved(
            node,
            segments,
            declared,
        ) is None,
        segments.len() > 0 && child_at(node, segments[0]) is Some ==> {
            let i = child_at(node, segments[0])->0;
            let fields = match node {
                NodeView::Struct(f) => f,
                NodeView::TupleStruct(f) => f,
                _ => Seq::empty(),
            };
            resolved(node, segments, declared) == resolved(
                fields[i].value,
                segments.drop_first(),
                if fields[i].range is Some {
                    fields[i].range
                } else {
                    declared
                },
            )
        },
{
}

/// The range that a field of a struct declares is the first of its name's; of an enum, the
/// one that the first of its variants with such a field declares.
pub proof fn a_declared_range_is_the_fields(node: NodeView, name: Seq<char>)
    ensures
        match node {
            NodeView::Struct(f) => {
                ||| exists|i: int|
                    0 <= i < f.len() && (#[trigger] f[i]).name == name && declared_for(node, name)
                        == f[i].range && forall|j: int|
                        0 <= j < i ==> (#[trigger] f[j]).name != name
                ||| declared_for(node, name) is None && forall|j: int|
                    0 <= j < f.len() ==> (#[trigger] f[j]).name != name
            },
            NodeView::Enum { variants, current: _ } => {
                ||| exists|v: int, i: int|
                    {
                        &&& 0 <= v < variants.len()
                        &&& 0 <= i < variants[v].fields.len()
                        &&& (#[trigger] variants[v].fields[i]).name == name
                        &&& declared_for(node, name) == variants[v].fields[i].range
                        &&& forall|j: int|
                            0 <= j < i ==> (#[trigger] variants[v].fields[j]).name != name
                        &&& forall|w: int, j: int|
                            0 <= w < v && 0 <= j < variants[w].fields.len() ==> (
                            #[trigger] variants[w].fields[j]).name != name
                    }
                ||| declared_for(node, name) is None && forall|w: int, j: int|
                    0 <= w < variants.len() && 0 <= j < variants[w].fields.len() ==> (
                    #[trigger] variants[w].fields[j]).name != name
            },
            _ => declared_for(node, name) is None,
        },
{
    match node {
        NodeView::Struct(f) => {
            let p = named(name);
            first_means(f, p);
            let end = match first_where(f, p) {
                Some(i) => i,
                None => f.len() as int,
            };
            assert forall|j: int| 0 <= j < end implies (#[trigger] f[j]).name != name by {
                assert(!p(f[j]));
            }
            if end < f.len() {
                assert(f[end].name == name);
            }
        },
        NodeView::Enum { variants, current: _ } => {
            let p = with_field(name);
            first_means(variants, p);
            let end = match first_where(variants, p) {
                Some(v) => v,
                None => variants.len() as int,
            };
            assert forall|w: int, j: int|
                0 <= w < end && 0 <= j < variants[w].fields.len() implies (
            #[trigger] variants[w].fields[j]).name != name by {
                assert(!p(variants[w]));
                let q = variant_named(name);
                first_means(variants[w].fields, q);
                assert(!q(variants[w].fields[j]));
            }
            if end < variants.len() {
                let fields = variants[end].fields;
                let q = variant_named(name);
                first_means(fields, q);
                let i = first_where(fields, q)->0;
                assert forall|j: int| 0 <= j < i implies (
                #[trigger] variants[end].fields[j]).name != name by {
                    assert(!q(fields[j]));
                }
                assert(variants[end].fields[i].name == name);
            }
        },
        _ => {},
    }
}

// ---------------------------------------------------------------------------
// What a value becomes
// ---------------------------------------------------------------------------

/// A value lands only in a leaf of its own kind: a number with a point in one, a switch in
/// a switch, a whole number in any width of one, and the name of a variant in an enum that
/// has it and none of whose variants carries data. Everything else is the wrong kind.
pub proof fn a_value_lands_in_its_own_kind(node: NodeView, value: ValueView, range: FieldRange)
    ensures
        leaf_written(node, value, range) is Ok <==> match value {
            ValueView::Float(_) => node matches NodeView::Leaf(Scalar::Float(_)),
            ValueView::Bool(_) => node matches NodeView::Leaf(Scalar::Bool(_)),
            ValueView::Int(_) => node is Leaf && node->Leaf_0 !is Float && node->Leaf_0 !is Bool,
            ValueView::Choice(name) => node is Enum && (forall|i: int|
                0 <= i < node->variants.len() ==> (#[trigger] node->variants[i]).unit) && exists|
                i: int,
            |
                0 <= i < node->variants.len() && (#[trigger] node->variants[i]).name == name,
        },
        leaf_written(node, value, range) matches Err(e) ==> e == TweakError::WrongKind,
{
    if let ValueView::Choice(name) = value {
        if let NodeView::Enum { variants, current: _ } = node {
            let p = called(name);
            first_means(variants, p);
            if first_where(variants, p) is None {
                assert forall|i: int| 0 <= i < variants.len() implies (
                #[trigger] variants[i]).name != name by {
                    assert(!p(variants[i]));
                }
            }
        }
    }
}

/// A number with a point lands as it is where its range has it, at the bound that it
/// passed where it does not, and at the lower bound where it is infinite or none. A switch
/// and a variant land as they are.
pub proof fn a_value_lands_as_it_is_or_at_a_bound(
    node: NodeView,
    value: ValueView,
    range: FieldRange,
)
    requires
        leaf_written(node, value, range) is Ok,
        in_order(range),
    ensures
        ({
            let (after, landed) = leaf_written(node, value, range)->Ok_0;
            match value {
                ValueView::Float(v) => {
                    let w = landed->Float_0;
                    &&& landed is Float
                    &&& after == NodeView::Leaf(Scalar::Float(w))
                    &&& magnitude(v) >= INFINITY_BITS ==> w == range.min
                    &&& magnitude(v) < INFINITY_BITS && rank(v) < rank(range.min) ==> w == range.min
                    &&& magnitude(v) < INFINITY_BITS && rank(v) > rank(range.max) ==> w == range.max
                    &&& magnitude(v) < INFINITY_BITS && rank(range.min) <= rank(v) <= rank(
                        range.max,
                    ) ==> w == v
                },
                ValueView::Bool(b) => landed == value && after == NodeView::Leaf(Scalar::Bool(b)),
                ValueView::Choice(name) => landed == value && after is Enum && after->variants
                    == node->variants && after->current == name,
                ValueView::Int(_) => landed is Int && after is Leaf,
            }
        }),
{
}

/// What a leaf of whole numbers holds, as a number.
pub open spec fn whole_in(s: Scalar) -> int {
    match s {
        Scalar::U8(v) => v as int,
        Scalar::U32(v) => v as int,
        Scalar::U64(v) => v as int,
        Scalar::Usize(v) => v as int,
        Scalar::I32(v) => v as int,
        Scalar::I64(v) => v as int,
        _ => 0,
    }
}

/// The least and the greatest that an edit can put in a leaf.
pub open spec fn ends_of(s: Scalar) -> (int, int) {
    match s {
        Scalar::U8(_) => (0, 255),
        Scalar::U32(_) => (0, 0xffff_ffff),
        Scalar::I32(_) => (-0x8000_0000, 0x7fff_ffff),
        Scalar::I64(_) => (-0x8000_0000_0000_0000, 0x7fff_ffff_ffff_ffff),
        _ => (0, 0x7fff_ffff_ffff_ffff),
    }
}

/// A whole number that a double has exactly lands as it is where its range and its type
/// have it, and at the nearest number that they have where they do not; the leaf keeps its
/// type, and what landed is what it holds.
pub proof fn a_whole_number_lands_as_near_as_it_can(s: Scalar, v: i64, range: FieldRange)
    requires
        s !is Float,
        s !is Bool,
        in_order(range),
        usize::MAX >= i64::MAX,
        -0x20_0000_0000_0000 < v < 0x20_0000_0000_0000,
    ensures
        ({
            let r = leaf_written(NodeView::Leaf(s), ValueView::Int(v), range);
            let (low, high) = (as_whole(range.min), as_whole(range.max));
            let held = if v < low {
                low
            } else if v > high {
                high
            } else {
                v as int
            };
            let (least, most) = ends_of(s);
            let now = if held < least {
                least
            } else if held > most {
                most
            } else {
                held
            };
            &&& r is Ok
            &&& r->Ok_0.0 is Leaf
            &&& whole_in(r->Ok_0.0->Leaf_0) == now
            &&& r->Ok_0.1 == ValueView::Int(now as i64)
            &&& match s {
                Scalar::U8(_) => r->Ok_0.0->Leaf_0 is U8,
                Scalar::U32(_) => r->Ok_0.0->Leaf_0 is U32,
                Scalar::U64(_) => r->Ok_0.0->Leaf_0 is U64,
                Scalar::Usize(_) => r->Ok_0.0->Leaf_0 is Usize,
                Scalar::I32(_) => r->Ok_0.0->Leaf_0 is I32,
                _ => r->Ok_0.0->Leaf_0 is I64,
            }
        }),
{
    small_numbers_are_settled(v);
    wholes_keep_order(range.min, range.max);
    wholes_are_settled(range.min);
    wholes_are_settled(range.max);
}

/// A write lands in the leaf that its path leads to, held to the range that counts there;
/// where the path leads nowhere there is no such path. Nothing but the leaf changes: along
/// the way every other field is as it was.
pub proof fn a_write_is_the_leafs(
    node: NodeView,
    segments: Seq<Seq<char>>,
    declared: Option<FieldRange>,
    value: ValueView,
)
    ensures
        match resolved(node, segments, declared) {
            Some((leaf, range)) => {
                let at_leaf = leaf_written(leaf, value, range_for(leaf, range));
                match written(node, segments, declared, value) {
                    Ok((after, landed)) => at_leaf is Ok && at_leaf->Ok_0.1 == landed && resolved(
                        after,
                        segments,
                        declared,
                    ) == Some((at_leaf->Ok_0.0, range)),
                    Err(e) => at_leaf == Err::<(NodeView, ValueView), TweakError>(e),
                }
            },
            None => written(node, segments, declared, value) == Err::<
                (NodeView, ValueView),
                TweakError,
            >(TweakError::NoSuchPath),
        },
        segments.len() > 0 && written(node, segments, declared, value) is Ok ==> {
            let i = child_at(node, segments[0])->0;
            let after = written(node, segments, declared, value)->Ok_0.0;
            &&& after is Struct == node is Struct
            &&& after is TupleStruct == node is TupleStruct
            &&& children(after).len() == children(node).len()
            &&& forall|j: int|
                0 <= j < children(node).len() ==> {
                    let (new, old) = (#[trigger] children(after)[j], children(node)[j]);
                    new.name == old.name && new.range == old.range && (j != i ==> new.value
                        == old.value)
                }
        },
    decreases segments.len(),
{
    if segments.len() > 0 {
        child_in_bounds(node, segments[0]);
        if let Some(i) = child_at(node, segments[0]) {
            let field = children(node)[i];
            let above = inherited(field.range, declared);
            a_write_is_the_leafs(field.value, segments.drop_first(), above, value);
            if let Ok((inner, _)) = written(field.value, segments.drop_first(), above, value) {
                same_children(node, i, inner, segments[0]);
            }
        }
    }
}

// ---------------------------------------------------------------------------
// What is listed
// ---------------------------------------------------------------------------

/// The leaves of each field of a struct or a tuple struct.
pub open spec fn leaves_by_field(
    node: NodeView,
    n: int,
    path: Seq<char>,
    root: int,
    depth: int,
    declared: Option<FieldRange>,
) -> Seq<Seq<TweakFieldView>> {
    let fields = match node {
        NodeView::Struct(f) => f,
        NodeView::TupleStruct(f) => f,
        _ => Seq::empty(),
    };
    Seq::new(
        n as nat,
        |i: int|
            leaves(
                fields[i].value,
                path + seq!['.'] + (if node is Struct {
                    fields[i].name
                } else {
                    decimal(i as nat)
                }),
                root,
                depth + 1,
                if fields[i].range is Some {
                    fields[i].range
                } else {
                    declared
                },
            ),
    )
}

proof fn fields_are_listed_in_turn(
    node: NodeView,
    n: int,
    path: Seq<char>,
    root: int,
    depth: int,
    declared: Option<FieldRange>,
)
    requires
        node is Struct || node is TupleStruct,
        0 <= n <= children(node).len(),
        depth <= 8,
    ensures
        leaves_of(node, n, path, root, depth, declared) == leaves_by_field(
            node,
            n,
            path,
            root,
            depth,
            declared,
        ).flatten(),
    decreases n,
{
    let all = leaves_by_field(node, n, path, root, depth, declared);
    if n > 0 {
        fields_are_listed_in_turn(node, n - 1, path, root, depth, declared);
        let few = leaves_by_field(node, n - 1, path, root, depth, declared);
        assert(all =~= few.push(all[n - 1]));
        few.lemma_flatten_push(all[n - 1]);
        assert(all[n - 1] == leaves(
            children(node)[n - 1].value,
            under(path, child_name(node, n - 1)),
            root,
            depth + 1,
            inherited(children(node)[n - 1].range, declared),
        ));
    } else {
        assert(all =~= Seq::<Seq<TweakFieldView>>::empty());
    }
}

/// What is listed of a value. A struct lists the leaves of every field, one field after
/// another, each under its own name and with its own range where it declares one; a leaf
/// lists itself; an enum lists itself where no variant carries data; and nothing is listed
/// that is more than eight fields down.
pub proof fn everything_is_listed(
    node: NodeView,
    path: Seq<char>,
    root: int,
    depth: int,
    declared: Option<FieldRange>,
)
    ensures
        depth > 8 ==> leaves(node, path, root, depth, declared).len() == 0,
        depth <= 8 ==> {
            let listed = leaves(node, path, root, depth, declared);
            match node {
                NodeView::Struct(f) => listed == leaves_by_field(
                    node,
                    f.len() as int,
                    path,
                    root,
                    depth,
                    declared,
                ).flatten(),
                NodeView::TupleStruct(f) => listed == leaves_by_field(
                    node,
                    f.len() as int,
                    path,
                    root,
                    depth,
                    declared,
                ).flatten(),
                NodeView::Enum { variants, current } => if forall|i: int|
                    0 <= i < variants.len() ==> (#[trigger] variants[i]).unit {
                    &&& listed.len() == 1
                    &&& listed[0].path == path
                    &&& listed[0].root == root
                    &&& listed[0].value == ValueView::Choice(current)
                    &&& !listed[0].overridden
                    &&& listed[0].choices.len() == variants.len()
                    &&& forall|i: int|
                        0 <= i < variants.len() ==> (#[trigger] listed[0].choices[i])
                            == variants[i].name
                    &&& declared is Some ==> listed[0].range == declared->0
                    &&& declared is None ==> listed[0].range.min == F32(0) && listed[0].range.step.0
                        == 0x3f80_0000
                } else {
                    listed.len() == 0
                },
                NodeView::Leaf(s) => {
                    &&& listed.len() == 1
                    &&& listed[0].path == path
                    &&& listed[0].root == root
                    &&& listed[0].choices.len() == 0
                    &&& !listed[0].overridden
                    &&& match s {
                        Scalar::Float(v) => listed[0].value == ValueView::Float(v),
                        Scalar::Bool(v) => listed[0].value == ValueView::Bool(v),
                        _ => whole_in(s) <= i64::MAX ==> listed[0].value == ValueView::Int(
                            whole_in(s) as i64,
                        ),
                    }
                    &&& declared is Some ==> listed[0].range == declared->0
                    &&& declared is None ==> match s {
                        Scalar::Float(_) => listed[0].range.min.0 == 0xc2c8_0000
                            && listed[0].range.max.0 == 0x42c8_0000 && listed[0].range.step.0 == 0,
                        Scalar::Bool(_) => listed[0].range.min.0 == 0 && listed[0].range.max.0
                            == 0x3f80_0000 && listed[0].range.step.0 == 0x3f80_0000,
                        Scalar::I32(_) | Scalar::I64(_) => listed[0].range.min.0 == 0xc380_0000
                            && listed[0].range.max.0 == 0x4380_0000 && listed[0].range.step.0
                            == 0x3f80_0000,
                        _ => listed[0].range.min.0 == 0 && listed[0].range.max.0 == 0x4380_0000
                            && listed[0].range.step.0 == 0x3f80_0000,
                    }
                },
                NodeView::Opaque => listed.len() == 0,
            }
        },
{
    if depth <= 8 && (node is Struct || node is TupleStruct) {
        fields_are_listed_in_turn(
            node,
            children(node).len() as int,
            path,
            root,
            depth,
            declared,
        );
    }
}

/// A leaf goes by what stands behind its root's name.
pub proof fn a_leaf_goes_by_its_path(path: Seq<char>)
    ensures
        path.contains('.') ==> path == before_dot(path) + seq!['.'] + label_of(path),
        !path.contains('.') ==> label_of(path) == path,
{
    a_path_is_a_name_and_the_rest(path);
    dot_bounds(path);
    if has_dot(path) {
        assert(path.contains(path[dot_at(path)]));
    } else if path.contains('.') {
        let i = path.index_of('.');
        assert(path[i] == '.');
    }
}

/// The leaves of each root.
pub open spec fn leaves_by_root(
    roots: Seq<(Seq<char>, Reach)>,
    targets: Seq<(Reach, NodeView)>,
    n: int,
) -> Seq<Seq<TweakFieldView>> {
    Seq::new(n as nat, |i: int| root_fields(roots, targets, i))
}

proof fn roots_are_listed_in_turn(
    roots: Seq<(Seq<char>, Reach)>,
    targets: Seq<(Reach, NodeView)>,
    n: int,
)
    requires
        0 <= n <= roots.len(),
    ensures
        fields_under(roots, targets, n) == leaves_by_root(roots, targets, n).flatten(),
    decreases n,
{
    let all = leaves_by_root(roots, targets, n);
    if n > 0 {
        roots_are_listed_in_turn(roots, targets, n - 1);
        let few = leaves_by_root(roots, targets, n - 1);
        assert(all =~= few.push(all[n - 1]));
        few.lemma_flatten_push(all[n - 1]);
    } else {
        assert(all =~= Seq::<Seq<TweakFieldView>>::empty());
    }
}

/// A world lists the leaves of every root, one root after another, and of each the first
/// five hundred and twelve of the first value that it reaches; and it marks exactly those
/// that there is an override for.
pub proof fn a_world_lists_every_root(w: WorldView, i: int)
    requires
        w.tweakables is Some,
        0 <= i < w.tweakables->0.roots.len(),
    ensures
        ({
            let roots = w.tweakables->0.roots;
            let by_root = leaves_by_root(roots, w.targets, roots.len() as int);
            let all = by_root.flatten();
            let listed = listed_fields(w);
            &&& listed.len() == all.len()
            &&& forall|k: int|
                0 <= k < all.len() ==> {
                    let (now, was) = (#[trigger] listed[k], all[k]);
                    &&& now.path == was.path
                    &&& now.root == was.root
                    &&& now.label == was.label
                    &&& now.value == was.value
                    &&& now.range == was.range
                    &&& now.choices == was.choices
                    &&& w.overrides is Some ==> now.overridden == w.overrides->0.contains_key(
                        now.path,
                    )
                }
            &&& {
                ||| by_root[i].len() == 0 && forall|u: int|
                    0 <= u < w.targets.len() ==> (#[trigger] w.targets[u]).0 != roots[i].1
                ||| exists|t: int|
                    {
                        let whole = leaves(w.targets[t].1, roots[i].0, i, 0, None);
                        &&& 0 <= t < w.targets.len()
                        &&& (#[trigger] w.targets[t]).0 == roots[i].1
                        &&& forall|u: int| 0 <= u < t ==> (#[trigger] w.targets[u]).0 != roots[i].1
                        &&& whole.len() <= 512 ==> by_root[i] == whole
                        &&& whole.len() > 512 ==> by_root[i].len() == 512 && by_root[i]
                            == whole.take(512)
                    }
            }
        }),
{
    let roots = w.tweakables->0.roots;
    roots_are_listed_in_turn(roots, w.targets, roots.len() as int);
    let p = reached(roots[i].1);
    first_means(w.targets, p);
    let end = match first_where(w.targets, p) {
        Some(t) => t,
        None => w.targets.len() as int,
    };
    assert forall|u: int| 0 <= u < end implies (#[trigger] w.targets[u]).0 != roots[i].1 by {
        assert(!p(w.targets[u]));
    }
    if end < w.targets.len() {
        assert(w.targets[end].0 == roots[i].1);
    }
}

// ---------------------------------------------------------------------------
// Edits of a world
// ---------------------------------------------------------------------------

/// Registering under a name that is taken changes nothing. Under any other it adds the
/// root behind those there are, and notes the value of every leaf that it lists; values
/// noted before for other paths stay.
pub proof fn registering_notes_what_is_there(w: WorldView, name: Seq<char>, reach: Reach)
    ensures
        ({
            let (old, new) = (tunables(w), registered(w, name, reach).tweakables->0);
            let after = registered(w, name, reach);
            let taken = exists|i: int| 0 <= i < old.roots.len() && (#[trigger] old.roots[i]).0 == name;
            &&& after.tweakables is Some
            &&& after.targets == w.targets
            &&& after.overrides == w.overrides
            &&& taken ==> new == old
            &&& !taken ==> new.roots == old.roots.push((name, reach))
            &&& !taken ==> forall|t: int|
                0 <= t < w.targets.len() && (#[trigger] w.targets[t]).0 == reach && (forall|u: int|
                    0 <= u < t ==> (#[trigger] w.targets[u]).0 != reach) ==> {
                    let all = leaves(w.targets[t].1, name, old.roots.len() as int, 0, None);
                    &&& forall|k: int|
                        0 <= k < all.len() ==> new.authored.contains_key((#[trigger] all[k]).path)
                    &&& forall|k: int|
                        0 <= k < all.len() && (forall|j: int|
                            k < j < all.len() ==> (#[trigger] all[j]).path != all[k].path)
                            ==> new.authored[(#[trigger] all[k]).path] == all[k].value
                    &&& forall|p: Seq<char>|
                        (forall|k: int| 0 <= k < all.len() ==> (#[trigger] all[k]).path != p)
                            ==> (#[trigger] new.authored.contains_key(p)
                            <==> old.authored.contains_key(p)) && (old.authored.contains_key(p)
                            ==> new.authored[p] == old.authored[p])
                }
            &&& !taken && (forall|t: int|
                0 <= t < w.targets.len() ==> (#[trigger] w.targets[t]).0 != reach) ==> new.authored
                == old.authored
        }),
{
    let old = tunables(w);
    let p = root_called(name);
    first_means(old.roots, p);
    if first_where(old.roots, p) is None {
        assert forall|i: int| 0 <= i < old.roots.len() implies (#[trigger] old.roots[i]).0
            != name by {
            assert(!p(old.roots[i]));
        }
    }
    let q = reached(reach);
    first_means(w.targets, q);
    assert forall|t: int|
        0 <= t < w.targets.len() && (#[trigger] w.targets[t]).0 == reach && (forall|u: int|
            0 <= u < t ==> (#[trigger] w.targets[u]).0 != reach) implies first_where(
        w.targets,
        q,
    ) == Some(t) by {
        assert forall|u: int| 0 <= u < t implies !q(#[trigger] w.targets[u]) by {}
        first_is(w.targets, q, t);
    }
    match first_where(w.targets, q) {
        Some(at) => {
            let all = leaves(w.targets[at].1, name, old.roots.len() as int, 0, None);
            all_is_noted(old.authored, all, all.len() as int);
            assert(w.targets[at].0 == reach);
        },
        None => {
            assert forall|t: int| 0 <= t < w.targets.len() implies (#[trigger] w.targets[t]).0
                != reach by {
                assert(!q(w.targets[t]));
            }
        },
    }
}

proof fn all_is_noted(m: Map<Seq<char>, ValueView>, all: Seq<TweakFieldView>, n: int)
    requires
        0 <= n <= all.len(),
    ensures
        ({
            let new = with_authored(m, all, n);
            &&& forall|k: int| 0 <= k < n ==> new.contains_key((#[trigger] all[k]).path)
            &&& forall|k: int|
                0 <= k < n && (forall|j: int| k < j < n ==> (#[trigger] all[j]).path != all[k].path)
                    ==> new[(#[trigger] all[k]).path] == all[k].value
            &&& forall|p: Seq<char>|
                (forall|k: int| 0 <= k < n ==> (#[trigger] all[k]).path != p) ==> (
                #[trigger] new.contains_key(p) <==> m.contains_key(p)) && (m.contains_key(p)
                    ==> new[p] == m[p])
        }),
    decreases n,
{
    if n > 0 {
        all_is_noted(m, all, n - 1);
        let (few, new) = (with_authored(m, all, n - 1), with_authored(m, all, n));
        assert forall|k: int|
            0 <= k < n && (forall|j: int| k < j < n ==> (#[trigger] all[j]).path != all[k].path)
            implies new[(#[trigger] all[k]).path] == all[k].value by {
            if k < n - 1 {
                assert(all[n - 1].path != all[k].path);
                assert forall|j: int| k < j < n - 1 implies (#[trigger] all[j]).path
                    != all[k].path by {}
            }
        }
        assert forall|p: Seq<char>|
            (forall|k: int| 0 <= k < n ==> (#[trigger] all[k]).path != p) implies (
        #[trigger] new.contains_key(p) <==> m.contains_key(p)) && (m.contains_key(p) ==> new[p]
            == m[p]) by {
            assert(all[n - 1].path != p);
            assert forall|k: int| 0 <= k < n - 1 implies (#[trigger] all[k]).path != p by {}
            assert(few.contains_key(p) <==> m.contains_key(p));
        }
    }
}

/// An edit that lands is in the world and in the overrides, as what it came to; the other
/// overrides, the roots and what they were registered with stay. One that does not land
/// changes nothing at all.
pub proof fn an_edit_is_recorded_as_it_landed(w: WorldView, path: Seq<char>, value: ValueView)
    ensures
        ({
            let (after, r) = recorded(w, path, value);
            &&& after.tweakables == w.tweakables
            &&& r is Err ==> after == w
            &&& w.tweakables is None ==> r == Err::<ValueView, TweakError>(TweakError::RootAbsent)
            &&& w.tweakables is Some ==> match set_in(
                w.tweakables->0.roots,
                w.targets,
                path,
                value,
            ) {
                Ok((targets, landed)) => r == Ok::<ValueView, TweakError>(landed) && after.targets
                    == targets,
                Err(e) => r == Err::<ValueView, TweakError>(e),
            }
            &&& r is Ok ==> {
                &&& after.overrides is Some
                &&& after.overrides->0.contains_key(path)
                &&& after.overrides->0[path] == r->Ok_0
                &&& forall|p: Seq<char>|
                    p != path ==> (#[trigger] after.overrides->0.contains_key(p) <==> w.overrides is Some
                        && w.overrides->0.contains_key(p))
                &&& forall|p: Seq<char>|
                    p != path && #[trigger] after.overrides->0.contains_key(p)
                        ==> after.overrides->0[p] == w.overrides->0[p]
            }
        }),
{
}

/// Where a write lands, one value of the world has changed, the one that the path leads
/// to; it is reached as it was.
pub proof fn a_write_changes_one_value(
    roots: Seq<(Seq<char>, Reach)>,
    targets: Seq<(Reach, NodeView)>,
    path: Seq<char>,
    value: ValueView,
)
    ensures
        match set_in(roots, targets, path, value) {
            Ok((after, landed)) => located(roots, targets, path) matches Ok(t) && {
                let w = written(targets[t].1, segments_of(path), None, value);
                &&& after.len() == targets.len()
                &&& forall|u: int|
                    0 <= u < targets.len() && u != t ==> #[trigger] after[u] == targets[u]
                &&& after[t].0 == targets[t].0
                &&& w == Ok::<(NodeView, ValueView), TweakError>((after[t].1, landed))
            },
            Err(e) => match located(roots, targets, path) {
                Ok(t) => written(targets[t].1, segments_of(path), None, value) == Err::<
                    (NodeView, ValueView),
                    TweakError,
                >(e),
                Err(l) => e == l,
            },
        },
{
    located_in_bounds(roots, targets, path);
}

/// Putting a leaf back writes what it was registered with and forgets its override; where
/// it was registered with nothing only the override goes; and where the write does not
/// land nothing changes. The other overrides stay.
pub proof fn clearing_forgets_one_override(w: WorldView, path: Seq<char>)
    ensures
        ({
            let (after, r) = cleared(w, path);
            &&& after.tweakables == w.tweakables
            &&& r is Err ==> after == w
            &&& w.tweakables is None ==> r is Err
            &&& w.tweakables is Some && !w.tweakables->0.authored.contains_key(path) ==> r == Ok::<
                Option<ValueView>,
                TweakError,
            >(None) && after.targets == w.targets
            &&& w.tweakables is Some && w.tweakables->0.authored.contains_key(path) ==> match set_in(
                w.tweakables->0.roots,
                w.targets,
                path,
                w.tweakables->0.authored[path],
            ) {
                Ok((targets, landed)) => r == Ok::<Option<ValueView>, TweakError>(Some(landed))
                    && after.targets == targets,
                Err(e) => r == Err::<Option<ValueView>, TweakError>(e),
            }
            &&& r is Ok ==> {
                &&& after.overrides is Some <==> w.overrides is Some
                &&& after.overrides is Some ==> !after.overrides->0.contains_key(path)
                &&& after.overrides is Some ==> forall|p: Seq<char>|
                    p != path ==> (#[trigger] after.overrides->0.contains_key(p)
                        <==> w.overrides->0.contains_key(p)) && (w.overrides->0.contains_key(p)
                        ==> after.overrides->0[p] == w.overrides->0[p])
            }
        }),
{
}

/// What is read is what the path leads to: the leaf's own value, in the shape of its kind,
/// and nothing where it leads to no leaf or to an enum some variant of which carries data.
pub proof fn a_leaf_reads_as_what_it_holds(node: NodeView)
    ensures
        match node {
            NodeView::Leaf(Scalar::Float(v)) => value_of(node) == Some(ValueView::Float(v)),
            NodeView::Leaf(Scalar::Bool(v)) => value_of(node) == Some(ValueView::Bool(v)),
            NodeView::Leaf(s) => whole_in(s) <= i64::MAX ==> value_of(node) == Some(
                ValueView::Int(whole_in(s) as i64),
            ),
            NodeView::Enum { variants, current } => if forall|i: int|
                0 <= i < variants.len() ==> (#[trigger] variants[i]).unit {
                value_of(node) == Some(ValueView::Choice(current))
            } else {
                value_of(node) is None
            },
            _ => value_of(node) is None,
        },
{
}

/// Putting every leaf back forgets every override that can be: those that are left are of
/// leaves whose old value did not land. What is registered stays, and no more are counted
/// than there were.
pub proof fn clearing_all_forgets_what_it_put_back(
    w: WorldView,
    entries: Seq<(Seq<char>, ValueView)>,
    n: int,
    p: Seq<char>,
)
    requires
        0 <= n <= entries.len(),
        w.overrides is Some,
    ensures
        ({
            let (after, count) = cleared_all(w, entries, n);
            &&& 0 <= count <= n
            &&& after.tweakables == w.tweakables
            &&& after.overrides is Some
            &&& after.overrides->0.contains_key(p) ==> w.overrides->0.contains_key(p)
            &&& after.overrides->0.contains_key(p) ==> after.overrides->0[p] == w.overrides->0[p]
            &&& (forall|i: int| 0 <= i < n ==> (#[trigger] entries[i]).0 != p)
                && w.overrides->0.contains_key(p) ==> after.overrides->0.contains_key(p)
            &&& w.tweakables is Some && !w.tweakables->0.authored.contains_key(p) && (exists|i: int|
                0 <= i < n && (#[trigger] entries[i]).0 == p) ==> !after.overrides->0.contains_key(
                p,
            )
        }),
    decreases n,
{
    if n > 0 {
        clearing_all_forgets_what_it_put_back(w, entries, n - 1, p);
        let before = cleared_all(w, entries, n - 1).0;
        clearing_forgets_one_override(before, entries[n - 1].0);
        if exists|i: int| 0 <= i < n && (#[trigger] entries[i]).0 == p {
            let i = choose|i: int| 0 <= i < n && (#[trigger] entries[i]).0 == p;
            if i < n - 1 {
                assert(exists|i: int| 0 <= i < n - 1 && (#[trigger] entries[i]).0 == p);
            }
        }
    }
}

/// The range of an enum goes by its variants, in ones: from the place of the first to that
/// of the last.
pub proof fn a_choice_ranges_over_its_variants(n: nat)
    requires
        n <= 0x100_0000,
    ensures
        as_whole(choice_range(n).min) == 0,
        choice_range(n).step.0 == 0x3f80_0000,
        n > 0 ==> as_whole(choice_range(n).max) == n - 1,
        n == 0 ==> as_whole(choice_range(n).max) == 0,
{
    small_wholes_come_back(0);
    if n > 0 {
        small_wholes_come_back((n - 1) as i64);
    }
}

} // verus!
